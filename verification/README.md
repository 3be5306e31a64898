# vasak_permissions

The VasakOS permission service as a verified library: which program may use
which resource (camera, microphone, credentials, online accounts), what the
person answered, and the rules that keep those answers meaningful.

- `src/` is the library, every function with a contract proved by Verus. The
  service's decisions are state machines (`servicio`): the program around it
  performs each action (reading the policy, asking the agent, saving) and hands
  back what came of it. The laws the service promises are public proof
  functions beside the code they speak of.
- `app/` is the daemon: the system bus, the policy files, `/proc`, polkit,
  `apparmor_parser` and the kernel's netlink sockets, calling the library for
  every decision.
- `tests/` runs the library on concrete values.

## Choices worth knowing

- **Collections.** The policy keeps its decisions in `tabla::Tabla`, a `Vec`
  sorted by key with that order as its invariant, and `NoticeThrottle` keeps a
  `Vec` of notices with no key twice. Keyed by text, std's `BTreeMap` and
  `HashMap` come with no usable specification in Verus here (not even the
  length after an insert could be proved with a `String` key), so the library
  holds its own with what it needs proved. Maps keyed by integers
  (`PromptThrottle`, `AgentRegistry`, `procesos::Cache`) use std's `HashMap`.
- **Byte order.** Netlink messages are in the machine's byte order. It is
  learned once, from a fixed pair of bytes, and every field is read or written
  in that one order; `*_en_orden` functions take the order as an argument and
  are exact.
- **Profile names.** A path is written into a profile name one character at a
  time with no character's writing a prefix of another's (`/` as `_`, `_` as
  `-_`, `-` as `--`, others as `-<code>-`), so distinct paths get distinct
  names. Exception profiles written under an earlier naming stay in
  `/etc/apparmor.d` and are still loaded at boot; they have to be removed by
  hand when upgrading.
- **What `app/` does not hold.** The dialog agent, the portal backends, the
  capture indicator and the desktop notifications run inside a Tauri
  application. That is a second program, and `app/` holds only the service.
  The library holds the agent's decisions (`agente`, `aviso`, `capturas`,
  `locales`). The service does not send the agent notices about blocks: no
  call for that is defined on the agent's side.
