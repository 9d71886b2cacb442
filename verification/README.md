# Everything Next

A desktop search client for the Everything 1.5 engine, whose core is written
in Verus and proved against its contracts.

- `src/` is the verified library: result selections and pages, the engines'
  configuration file and names, the shaping of SDK3 results, Windows name and
  path rules, the ordering of file operations, the Recycle Bin confirmations,
  the sidebar filters, keyboard navigation, the preview and icon caches, the
  conversion of Shell bitmaps to PNG data URIs, and the formatting of sizes
  and counts. The properties that span operations are public proof
  functions named `law_*`.
- `app/` is the program around it: loading SDK3, starting the bundled
  engines, asking the Windows Shell for pictures, the file system, the
  Recycle Bin, settings files, and the pixel geometry of the result views.
- `tests/` runs the library on concrete values.
