# lanshare

A LAN file-sharing service: a desktop application shares one directory over
HTTP, lists it, serves downloads, receives uploads, announces its addresses
(with QR codes) and keeps track of the devices that visit it.

The library in `src/` holds the service's logic, verified with Verus:

- `file_service` — confinement of requested paths to the shared directory,
  download and save paths, directory listings (directories first, then by
  name);
- `paths`, `text` — path components, joining, final names; decimal and
  hexadecimal text, substring tests, the order of names;
- `network` — server addresses and URLs, the local address list, the
  free-port search;
- `qr_service`, `base64` — QR codes as SVG, PNG and PNG data URLs; base64
  encoding with its decoding law (round trip, injectivity);
- `size` — human-readable file sizes;
- `device_tracker` — visiting devices, their kind and name, expiry;
- `commands` — the application state: shared directory, server start/stop;
- `server` — server configuration, the handlers' decisions and the
  progress of an upload (saved files, the file in progress, what a failure
  answers and removes);
- `models` — the records handed out;
- `foreign` — the calls into other crates and into std, with the contracts
  they are trusted to meet.

`app/` holds what cannot be verified: the Tauri commands, the axum server,
filesystem and network probes, and serializable copies of the records.
