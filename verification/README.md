# shapemaker

Grid-based vector graphics: points and regions on a grid, shapes and styled objects in
named layers on a canvas, their rendering to SVG, and the bookkeeping around videos
synchronised to music.

- `src/` is the library, verified with Verus: geometry (`geometry`), shapes, objects,
  layers and canvases (`graphics`), random drawing (`random`), the SVG document model and
  its rendering (`rendering`), sync data and markers (`synchronization`), video timing
  decisions (`video`), terminal texts (`ui`), the command-line decisions (`project`), and
  the laws that hold across operations (`laws`).
- `app/` is the program and what works with floating-point numbers, files, fonts, pixels,
  audio files and the terminal.
- `tests/` runs the library on concrete values.
