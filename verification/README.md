# imgitor

The decision logic of an image-archive processing service, verified with
Verus. The service downloads a comic archive (`.zip`, `.cbz` or `.rar`) from
cloud storage, extracts it, drops the files that are not pages, converts
every image to WebP, splits landscape images into two pages, shrinks
oversized pages, renumbers the pages, recompresses the result and uploads it.

The stage that drops the files that are not pages has a rule of this
library's own choosing: a file is kept when its extension is `jpg`, `jpeg`,
`png` or `webp`, in any letter case (`Transform::is_page_file`).

- `src/` is the verified library: archive classification and the processing
  plan (`controller`, with the path rules in `paths`), page naming and
  image geometry (`transform`), shrinking and cutting decoded images
  (`picture`), reading, extracting and writing zip archives (`archive`),
  archiver command lines (`command`), the HTTP route (`route`), the torrent
  downloader's reactions (`downloader`), and the string and number helpers
  they rest on (`text`, `decimal`).
- `app/` is the server around it: HTTP, cloud storage, file system, image
  decoding and encoding, and the external archiver.
- `tests/` exercises the library on concrete values.
