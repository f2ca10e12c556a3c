# device_status

The logic behind a status-bar widget that lists the USB serial boards,
phones and USB drives attached to a Windows machine, as one JSON object
(`compact`, `count`, `tooltip`).

- `src/` is the verified library:
  - `text`: trimming, searching, splitting, case folding, integer parsing
    and hex formatting over the character view of strings;
  - `boards`: the known boards and the icon/colour of each device kind;
  - `ids`: reading Windows instance ids (vendor/product ids, serials,
    WPD wrappers, WMI object references, drive numbers);
  - `serial`: naming and showing USB serial ports;
  - `strmap`: an insertion-ordered string map;
  - `extras`: the USB drive and phone pass over the WMI rows;
  - `output`: the compact line, the count and the tooltip;
  - `cache`: when a cached scan is reused.
- `app/` runs the queries (serial ports, WMI), the cache file and the JSON
  output around the library.
- `tests/` exercises the library on concrete values.
