# Pulsar

Pulsar is a programmable network dataplane: a packet program with access
control lists and rate limits, a daemon that manages the program's maps, and a
command-line tool that talks to the daemon.

`src/` is the verified library. Every function in it has a contract, and Verus
proves the contracts.

| module       | what it holds                                                    |
|--------------|------------------------------------------------------------------|
| `maps`       | the records and constants that the kernel maps share             |
| `packet`     | taking a frame apart                                             |
| `xdp`        | the packet program: rules, rate limits, counters and events      |
| `balance`    | choosing backends and following connections                      |
| `acl_key`    | addresses, ports and rules, and the map entries of rules         |
| `records`    | the map entries of backends and services                         |
| `trail`      | what the packet program does to its tables, in order             |
| `daemon`     | the daemon: maps, configuration, attachments, events, commands   |
| `ctl`        | the tool: subcommands, client, configuration check, `bpftool`    |
| `protocol`   | the messages between tool and daemon                             |
| `text`, `bytes`, `display` | texts, numbers and addresses                       |
| `yaml`, `json` | documents as plain values, read by `serde_yaml` and `serde_json` |
| `trace`      | growing records of what was done                                 |
| `laws`, `lines`, `agreement`, `daemon::contents` | properties that span modules |

What the kernel, the machine or the daemon answers is not assumed. The library
asks them through traits without promises (`Tables`, `LbTables`, `Kernel`,
`Host`, `Shell`, `Tools`), and beside each function that asks stands one that
takes the answer as an argument.

What the library changes goes through a recorder: `Trail` for the packet
program's tables, `Session` for the daemon's maps, `Edits` for `bpftool`, and
`Channel` for the commands to the daemon. A recorder keeps everything that was
done, in order and with the answers, and the contract of each function that
changes something states all that it adds to the record. `daemon::contents`
says what the maps hold after such a record.

`app/` is the program around the library: sockets, files, libbpf and the ring
buffer. `tests/` runs the library with machines held in memory.
