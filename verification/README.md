# color_picker

A small GTK color picker: pick a color from the screen, edit it through
RGB sliders and text fields, copy it in several notations, and keep a palette
of recently used colors and a list of favorites.

- `src/` is the verified library (Verus): color notations and their parsing
  (`color`, `text`), the saved palette, favorites and settings (`storage`),
  the decisions taken on edits and copy notices (`editing`, `clipboard`), and
  the looks of the toolbar toggles and theme (`saved_colors`, `style`).
- `app/` is the GTK/libadwaita program around it: windows and widgets, the
  portal call that picks a color, the JSON file with the saved colors, and
  the floating-point color math (HSL figures, brightness, suggestions).
- `tests/` exercises the library.
