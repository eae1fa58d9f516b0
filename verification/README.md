# omniget_telegram

The logic of a Telegram download plugin, written in Verus: what is asked of the
service, what a reply amounts to, how files are cut up, decrypted, streamed and
resumed, how chats are copied, and what each command of the plugin takes and answers.
Every function states in `ensures` what it returns or changes, and Verus proves it.

- `src/` is the library. `platforms/telegram/` holds the subjects one by one:
  `auth` (signing in), `dialogs`, `list_media` and `listing`, `search`, `album`,
  `members`, `requests` and `resolve` (the requests and their replies), `download`,
  `parallel_download`, `cdn` and `stream_server` (files), `thumbnail_cache`, `resume`,
  `bandwidth`, `accounts`, `clone`, `sync_state`, and `rpc` (what a failed request calls
  for). `commands` reads the commands of the host. `text`, `json`, `sort`, `paths` and
  `encoding` are shared.
- `tests/` runs the library on concrete values.
- `app/` is the plugin around it: the client, files, tasks and events.

Laws that relate several functions stand beside them as public proof functions whose
names begin with `lemma_`. The functions marked `external_body`, the items
`assume_specification` and the spec functions without a body say what is taken from
std and from the crates `aes`, `ctr`, `sha2`, `base64`, `qrcode` and `rand`; the comment
above each tells what is believed of them.
