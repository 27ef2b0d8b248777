# steam_downloader

The verified core of a desktop tool that downloads Steam depots with
DepotDownloaderMod and prepares games with the Goldberg emulator and Steamless.

- `src/` (verified with Verus)
  - `manifest.rs`: protobuf reader for depot manifests (varints, keys, strings,
    skipping), the manifest summary and the platform guess; laws: varints and
    whole manifests are read back as written.
  - `appid.rs`, `steam.rs`: search over the AppID list, store header URLs, the
    game name in a store `appdetails` response (through `serde_json`).
  - `download.rs`: depot ids from manifest file names and depot keys from Lua
    scripts (through `regex`), folder names, DepotDownloader arguments.
  - `commands.rs`: greeting, .NET runtime check, the app's search and the staging
    state between prepare and execute, with its laws.
  - `goldberg.rs`: emulator settings files, PE architecture detection, DLL choices,
    reports, backup names.
  - `steamless.rs`: which executables are processed, the Steamless command line and
    run reports.
  - `text.rs`: string operations and their specifications.
- `app/`: file system, network and process work around the library.
- `tests/`: tests of the library.
