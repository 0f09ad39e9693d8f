# ytb-wayback

Finds and downloads YouTube media preserved by the Wayback Machine
(web.archive.org). The library, `ytb_wayback`, holds the tool's logic with
its contracts proved by Verus; `app/` is the command line around it.

## Layout

- `src/video_id.rs`: what a user's input is (bare ID, YouTube link, archived
  page, archived media file), and why one is refused.
- `src/wayback.rs`: archive URLs, the retry policy, the CDX index rows,
  stored-copy selection and snapshot pinning.
- `src/html.rs`: metadata of archived watch pages, entity decoding, title
  clean-up and file-name sanitising.
- `src/formats.rs`: the itag table and content-type extensions.
- `src/download.rs`, `src/naming.rs`: what a download is called and decides.
- `src/cdx.rs`, `src/size.rs`, `src/clock.rs`: timestamps, size units and
  civil dates.
- `src/text.rs`, `src/sort.rs`, `src/pattern.rs`: string helpers, a stable
  sort by timestamp, and the single entry point to `regex`.
- `app/`: argument parsing (`clap`), HTTP (`ureq`), the progress bar
  (`indicatif`), files, and the two places that need floating point (size
  parsing and readable sizes).

Verify with `verus` on `src/lib.rs`; the tests under `tests/` exercise the
library with the real `regex` and `serde_json`.
