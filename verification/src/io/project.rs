//! ArtFlow project format (.aflow): the magic `ARTFLOW1`, the body length as a little-endian
//! `u64`, then the JSON body.

use vstd::prelude::*;

verus! {

/// The eight bytes a project file starts with: `ARTFLOW1`.
pub open spec fn magic() -> Seq<u8> {
    seq![65u8, 82u8, 84u8, 70u8, 76u8, 79u8, 87u8, 49u8]
}

/// The little-endian bytes of `n`.
pub open spec fn le_bytes(n: u64) -> Seq<u8> {
    seq![
        (n & 0xff) as u8,
        ((n >> 8u64) & 0xff) as u8,
        ((n >> 16u64) & 0xff) as u8,
        ((n >> 24u64) & 0xff) as u8,
        ((n >> 32u64) & 0xff) as u8,
        ((n >> 40u64) & 0xff) as u8,
        ((n >> 48u64) & 0xff) as u8,
        ((n >> 56u64) & 0xff) as u8,
    ]
}

/// The `u64` whose little-endian bytes are `b[at..at + 8]`.
pub open spec fn le_u64(b: Seq<u8>, at: int) -> u64 {
    (b[at] as u64) | ((b[at + 1] as u64) << 8u64) | ((b[at + 2] as u64) << 16u64) | ((b[at + 3] as u64)
        << 24u64) | ((b[at + 4] as u64) << 32u64) | ((b[at + 5] as u64) << 40u64) | ((b[at + 6] as u64)
        << 48u64) | ((b[at + 7] as u64) << 56u64)
}

/// A project file holding `body`.
pub open spec fn project_file(body: Seq<u8>) -> Seq<u8> {
    magic() + le_bytes(body.len() as u64) + body
}

/// Why a project file cannot be read.
#[derive(Debug, Clone, Copy, PartialEq, Eq, Structural)]
pub enum ProjectError {
    /// Shorter than the 16-byte header.
    Truncated,
    /// Does not start with `ARTFLOW1`.
    NotAProject,
}

/// The bytes of a project file for the JSON `body`.
pub fn project_bytes(body: &[u8]) -> (out: Vec<u8>)
    ensures
        out@ == project_file(body@),
{
    let mut out: Vec<u8> = Vec::new();
    out.push(65u8);
    out.push(82u8);
    out.push(84u8);
    out.push(70u8);
    out.push(76u8);
    out.push(79u8);
    out.push(87u8);
    out.push(49u8);
    let n: u64 = body.len() as u64;
    out.push((n & 0xff) as u8);
    out.push(((n >> 8) & 0xff) as u8);
    out.push(((n >> 16) & 0xff) as u8);
    out.push(((n >> 24) & 0xff) as u8);
    out.push(((n >> 32) & 0xff) as u8);
    out.push(((n >> 40) & 0xff) as u8);
    out.push(((n >> 48) & 0xff) as u8);
    out.push(((n >> 56) & 0xff) as u8);
    let ghost head = out@;
    assert(head =~= magic() + le_bytes(n));
    let mut i: usize = 0;
    while i < body.len()
        invariant
            i <= body@.len(),
            out@ == head + body@.subrange(0, i as int),
        decreases body@.len() - i,
    {
        out.push(body[i]);
        assert(out@ =~= head + body@.subrange(0, i + 1));
        i = i + 1;
    }
    assert(body@.subrange(0, body@.len() as int) =~= body@);
    out
}

/// The header is complete and names `ARTFLOW1`.
pub open spec fn header_ok(data: Seq<u8>) -> bool {
    data.len() >= 16 && data.subrange(0, 8) == magic()
}

/// The body that a project file `data` declares: the `le_u64(data, 8)` bytes after the header.
pub fn project_body(data: &[u8]) -> (r: Result<Vec<u8>, ProjectError>)
    requires
        header_ok(data@) ==> 16 + le_u64(data@, 8) <= data@.len(),
    ensures
        data@.len() < 16 <==> r == Err::<Vec<u8>, ProjectError>(ProjectError::Truncated),
        data@.len() >= 16 && data@.subrange(0, 8) != magic() <==> r == Err::<Vec<u8>, ProjectError>(
            ProjectError::NotAProject,
        ),
        header_ok(data@) ==> (r matches Ok(body) && body@ == data@.subrange(16, 16 + le_u64(data@, 8))),
{
    if data.len() < 16 {
        return Err(ProjectError::Truncated);
    }
    if !(data[0] == 65 && data[1] == 82 && data[2] == 84 && data[3] == 70 && data[4] == 76 && data[5] == 79
        && data[6] == 87 && data[7] == 49) {
        assert(data@.subrange(0, 8) != magic()) by {
            if data@.subrange(0, 8) == magic() {
                assert(data@[0] == data@.subrange(0, 8)[0]);
                assert(data@[1] == data@.subrange(0, 8)[1]);
                assert(data@[2] == data@.subrange(0, 8)[2]);
                assert(data@[3] == data@.subrange(0, 8)[3]);
                assert(data@[4] == data@.subrange(0, 8)[4]);
                assert(data@[5] == data@.subrange(0, 8)[5]);
                assert(data@[6] == data@.subrange(0, 8)[6]);
                assert(data@[7] == data@.subrange(0, 8)[7]);
            }
        }
        return Err(ProjectError::NotAProject);
    }
    assert(data@.subrange(0, 8) =~= magic());
    let len: u64 = (data[8] as u64) | ((data[9] as u64) << 8) | ((data[10] as u64) << 16) | ((data[11] as u64)
        << 24) | ((data[12] as u64) << 32) | ((data[13] as u64) << 40) | ((data[14] as u64) << 48) | ((
    data[15] as u64) << 56);
    let end: usize = 16 + len as usize;
    let mut body: Vec<u8> = Vec::new();
    let mut i: usize = 16;
    while i < end
        invariant
            16 <= i <= end,
            end == 16 + le_u64(data@, 8),
            end <= data@.len(),
            body@ == data@.subrange(16, i as int),
        decreases end - i,
    {
        body.push(data[i]);
        assert(body@ =~= data@.subrange(16, i + 1));
        i = i + 1;
    }
    Ok(body)
}

/// Reading back a written project file gives the body that was written.
pub proof fn law_project_round_trip(body: Seq<u8>)
    requires
        body.len() <= u64::MAX,
    ensures
        header_ok(project_file(body)),
        le_u64(project_file(body), 8) == body.len(),
        project_file(body).subrange(16, 16 + le_u64(project_file(body), 8)) == body,
{
    let f = project_file(body);
    let n = body.len() as u64;
    assert(f.subrange(0, 8) =~= magic());
    let b0 = (n & 0xff) as u8;
    let b1 = ((n >> 8u64) & 0xff) as u8;
    let b2 = ((n >> 16u64) & 0xff) as u8;
    let b3 = ((n >> 24u64) & 0xff) as u8;
    let b4 = ((n >> 32u64) & 0xff) as u8;
    let b5 = ((n >> 40u64) & 0xff) as u8;
    let b6 = ((n >> 48u64) & 0xff) as u8;
    let b7 = ((n >> 56u64) & 0xff) as u8;
    assert(f[8] == b0 && f[9] == b1 && f[10] == b2 && f[11] == b3 && f[12] == b4 && f[13] == b5 && f[14] == b6
        && f[15] == b7);
    assert((b0 as u64) | ((b1 as u64) << 8u64) | ((b2 as u64) << 16u64) | ((b3 as u64) << 24u64) | ((b4 as u64)
        << 32u64) | ((b5 as u64) << 40u64) | ((b6 as u64) << 48u64) | ((b7 as u64) << 56u64) == n)
        by (bit_vector)
        requires
            b0 == (n & 0xff) as u8,
            b1 == ((n >> 8u64) & 0xff) as u8,
            b2 == ((n >> 16u64) & 0xff) as u8,
            b3 == ((n >> 24u64) & 0xff) as u8,
            b4 == ((n >> 32u64) & 0xff) as u8,
            b5 == ((n >> 40u64) & 0xff) as u8,
            b6 == ((n >> 48u64) & 0xff) as u8,
            b7 == ((n >> 56u64) & 0xff) as u8,
    ;
    assert(f.subrange(16, 16 + n) =~= body);
}

} // verus!
