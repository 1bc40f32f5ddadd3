# cce-mail

A mail client for the cce desktop. The library under `src/` holds everything
the client decides and computes, and every function of it carries a contract
that Verus checks. The program under `app/` opens the window, talks to the mail
servers, the keyring and the disk, and hands the library plain values.

| Modules | What they do |
| --- | --- |
| `text`, `scan`, `number`, `path`, `order` | characters, words, numbers, file names, stable ordering |
| `model`, `accounts`, `state` | messages, accounts and the client's state |
| `structure`, `intake`, `message`, `fetch`, `pass`, `session`, `jobs` | reading mail, choosing what to download, and the dialogue with the servers |
| `merge`, `merge_laws` | folding a sync pass into the cached mail |
| `update`, `schedule`, `update_laws` | what each action and each tick does to the state |
| `list`, `webview`, `input`, `poll` | rows, the HTML pane, keys and the event loop |
| `ipc`, `render`, `json`, `mailto` | the control socket's commands and replies, and mailto links |
| `outgoing`, `net`, `demo` | building mail, tokens and file names, the demonstration mailbox |

Modules whose name ends in `_laws` state what holds across several functions.
Functions marked `external_body` call `lettre`, `mail-parser`, `serde_json` or
the standard library; their doc comments say what is taken on trust.
