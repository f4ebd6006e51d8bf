# x-viz

A desktop wallpaper manager that fetches Bing's daily images and sets them
as the desktop wallpaper. The rules of the application are a library verified
with Verus; the desktop application around it does the I/O.

- `src/` — the verified library (`x_viz`):
  - `text` — character-level text operations (search, replace, split, trim,
    ordering, decimal digits) with exact specifications;
  - `bing` — API URLs, image records, UHD URLs, file names from URLs, dates;
  - `storage` — save file names, image file names, dates and titles read
    back from names, retention cutoff and expiry, directory listings,
    gallery order;
  - `calendar` — the proleptic Gregorian calendar and day numbers, which
    order the retention cutoffs;
  - `config` — configuration defaults, market region and UI language from
    the system locale, configuration paths;
  - `scheduler` — when an update is due, the steps of the background loop
    and of an update cycle and
    when it fails, which images a cycle downloads, which one becomes the
    wallpaper, what the frontend is told;
  - `platform` — per-desktop commands (Linux, macOS, Windows) and how their
    output is read;
  - `launch` — window and tray-menu decisions of the shell.
- `tests/` — tests of the library.
- `app/` — the Tauri application: HTTP, files, processes, windows, tray,
  logging and the background loop, calling the library for every decision.
