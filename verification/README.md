# openlist_uploader

A desktop uploader for OpenList/Alist drives: files and folders are queued
for a remote directory, uploaded by a scheduler with retries, filed into a
history, and announced through Feishu webhooks. Long names are checked
against the 175-byte limit of 115Crypt drives, oversized files can be split
with WinRAR, and the application's logs can be synced (and redacted) to a
second server.

Layout:

- `src/` is the verified library (Verus). It holds the data model, the
  queue and history operations, adding files and folders, target paths and
  name limits, the meaning of every Alist reply, the scheduler's decisions,
  the scheduled window, log sync and redaction, splitting and renaming, and
  the recovery after a restart. Each public function states its result in
  its contract; the laws that span several calls are public proof
  functions (`law_*`).
- `app/` is the program around it: HTTP, files, processes, timers and the
  asynchronous loops. It hands the library plain values and acts on what
  comes back.
- `tests/` runs the library on concrete values.
