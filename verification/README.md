# clipboard_manager

The core of a clipboard-history desktop application, written in Verus and
proved against its specifications.

- `src/database.rs`: the history, the collections and their saved entries as
  three tables, with the rules of the application's queries: the history
  keeps every pinned entry and the newest others up to a limit, is listed
  pinned first and newest first, and is searched with SQL `LIKE`
  (`src/like.rs`).
- `src/content.rs`: the kind of a copied text, the preview of its card, and
  the watcher that turns clipboard changes into history entries.
- `src/sync.rs`: the session with the sync service and the request each change
  sends.
- `src/settings.rs`, `src/layout.rs`, `src/commands.rs`: settings, panel
  placement, and the requests of the user interface.
- `src/laws.rs`: properties that span several operations.

`app/` holds the desktop shell: the window, tray and shortcut code, the SQLite
file the tables are stored in, the clipboard poller and the HTTP client.
