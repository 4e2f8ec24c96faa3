# sync-iobs

Uploads files to an iobs object store and downloads them, from the command line
or from a window.

- `src/` is the library, verified with Verus: configuration, tokens, requests,
  the protocol of uploads in parts, progress, history, and what the command line
  and the window decide. It does no I/O; it is given what was read, and says what
  is to be sent, written or shown. Floating point is computed in integers
  (`binary`), by the rules that doubles follow; that the two agree bit for bit is
  not proved, but compared in `tests/numbers.rs`.
- `app/` is the program around it: files, HTTP, threads, and the window.
- `tests/` runs the library on concrete values.

What is taken on trust is in `text` (case mapping and the alphabetic property of
Unicode, `String::push`) and in `clock` (the system clock).

## Configuration

`iobs.ini` is looked for in this order: the file that `--config` names, the
current directory, the directory of the executable, and `sync-iobs` in the
directory for application data.

```ini
[common]
bucket           = your-bucket
access_key       = ...
secret_key       = ...
small_file_limit = 10MB
chunk_size       = 5MB
timeout          = 60
retry            = 3
token_ttl        = 600

[outer]
base_url = https://iobs.example.com
```

The command line comes before the environment variables (`IOBS_ENV`,
`IOBS_BASE_URL`, `IOBS_BUCKET`, `IOBS_AK`, `IOBS_SK`), these before the section of
the environment, this before `[common]`, and that before the defaults. Address,
bucket and keys have no default. This holds in the window too, in whichever
environment it is switched to, but for `--env`; it shows which file was found,
and where each key comes from. Keys are saved to the file that `--config` names,
or else to the one that was found, or else to one beside the executable.

## Use

```
sync-iobs upload ./a.zip --key report_{date} --ext png
sync-iobs download report_20251130 --out ./recv/a.zip --resume
sync-iobs url report_20251130
sync-iobs history
sync-iobs init-config
```
