# workbuddy_checkin

The verified core of the WorkBuddy check-in and OAuth loopback commands of a desktop
assistant, written in Verus.

- `src/` is the library, verified except for five small trusted wrappers around
  `String::push`, `char::from_u32`, `str::to_uppercase`, `serde_json` and `chrono`, whose
  contracts are taken on trust:
  - `text`, `decimal`: character-sequence helpers (trimming, search, `lines`, `split`,
    `join`) and decimal printing, with their specifications;
  - `task_xml`: relaxing the battery / missed-start settings of a scheduled-task XML and
    its UTF-16LE round trip; `setting_laws`: why one patch (or one relaxation) settles a
    text that holds each strict default at most once;
  - `task_list`, `schedule`, `schtasks_args`: reading task names out of
    `schtasks /Query /FO CSV`, naming the check-in tasks, the `/TR` command line, the
    `schtasks` argument lists and the checks made before registering; `register_round`:
    the registration round (create, relax, warn or stop) as a state machine;
  - `script_args`, `reports`, `results`: the check-in script's arguments, the reports made
    from its NDJSON output, and the check-in log view;
  - `loopback`, `proxy_pause`: the decisions of the OAuth loopback listener and of the
    system-proxy pause, as state machines.
- `tests/`: the scenarios, run against the compiled library.
- `app/`: the command layer (processes, files, the HTTP listener, the system proxy),
  which performs what the library decides.
