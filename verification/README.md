# ArtFlow

An image editor and drawing studio. The editing model is a library whose behaviour is
specified with `requires` / `ensures` contracts and proved with Verus; the desktop program
around it is ordinary Rust built on `eframe`/`egui`.

## Layout

- `src/` — the verified library (`artflow`):
  - `pixel_buffer` — RGBA8 buffers: access, clearing, canvas and scaled resizing.
  - `color` — pixel colours and `#RRGGBB[AA]` text.
  - `filters` — invert, grayscale, posterize, box and Gaussian blur, flips, rotation, the
    wave's row shift.
  - `document` — layers, the undo history, selections (rectangle, ellipse, magic wand), the
    document store, and the laws relating undo to each operation.
  - `tools` — drag tracking, flood regions, shapes, marquees, eyedropper, crop and move.
  - `keymap` — which action each keyboard shortcut asks for.
  - `io` — base64, the `.aflow` project framing, PSD bytes, the SVG wrapper around a PNG
    (encoded by the `image` crate) and the format chosen for a file extension.
  - `workspace` — the saved layout name.
- `tests/` — executable tests of the library.
- `app/` — the program: window, menus, panels and dialogs, the canvas widget, file dialogs
  and disk I/O, JSON project bodies, and the painting that is done in floating point
  (brush, eraser, gradient, layer blending, tonal filters, noise, swirl).
