# quick_translate

The core of a Windows desktop translation helper (select text, tap Ctrl or
press a shortcut, read the translation in a popup) with a vocabulary
notebook that schedules reviews in Leitner boxes.

`src/` is the library, written in Verus and verified: every public function
states what it returns in its `ensures`, and the `lemma_*` proof functions
state properties that hold across calls (ids stay unique in the notebook,
hex digits read back give the bytes they were written from, a sealed key
opens to itself, a Ctrl tap needs a clean short press, the export order is
unique, and so on).

| module        | what it holds                                                        |
|---------------|----------------------------------------------------------------------|
| `text`        | characters, trimming, character classes, substring search            |
| `vocab`       | is a translation a word lookup; merging meanings; CSV cells           |
| `store`       | the notebook: record, review, delete, add, export                     |
| `dates`       | decimal numbers and calendar dates as text                           |
| `secret`      | how the API key is stored (hex of the protected bytes)               |
| `settings`    | defaults, language and domain tables, sanitising before saving       |
| `translate`   | the request to the translation service and the reading of its answer |
| `input`       | the Ctrl-tap detector, popup placement, foreground rules             |
| `capture`     | taking the selection through the clipboard                           |
| `pets`        | pet skins: ids, frames, the list order                               |
| `diagnostics` | the diagnostics report and forwarded log lines                       |
| `logfile`     | log rotation, stamps and the log tail                                |
| `order`       | a sorted permutation is unique                                        |

`app/` is the Tauri program around it: windows, tray, global shortcuts,
hooks, the clipboard, files and HTTP. It hands the library plain values and
does what the library decides.
