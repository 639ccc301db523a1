# tors_rs

A BitTorrent client whose logic is verified with Verus.

- `src/` is the library. Every function states what it does, and Verus proves that it does it. The
  laws that relate several functions are public proof functions.
- `app/` is the program around it: the command line, the network, the files and the tasks.
- `tests/` runs the library on concrete values.

## The library

| Module | What it holds |
| --- | --- |
| `wire`, `text`, `bits`, `buffer`, `digest`, `random` | integers, texts, bit sets, buffers, hashes and random numbers |
| `message` | bit fields as peers send them |
| `peer::message`, `peer::handshake` | the messages between peers |
| `peer::blocks`, `peer::pieces`, `peer::pool`, `peer::requests` | pieces, blocks, and which of them to ask for |
| `peer::history` | what holds of requests in every session |
| `peer::state`, `peer::connection`, `peer::writing`, `peer::relay` | the decisions of a session |
| `peer::peer`, `peer::direct` | two simpler kinds of session |
| `parsing`, `layout`, `paths`, `storage`, `download` | torrents, their files, and what is complete of them |
| `tracker::http`, `tracker::udp`, `address` | exchanges with trackers |
| `config`, `ports`, `torrent` | settings, and the choice of ports and peers |

## Usage

```
tors-rs --file path/to/file.torrent --max-peers 10
```

The files are written to the directory that `--dir` gives. Without it a single file goes to `out`, and
several go to the directory that the torrent names.
