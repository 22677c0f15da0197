# root

The logic of the `.root` overlay network, verified with [Verus](https://github.com/verus-lang/verus):
onion-routed circuits over TLS, a gossiped directory of signed relay descriptors, a SOCKS5 client and
hidden services whose addresses are their Ed25519 keys.

`src/` is the library. It holds every rule of the protocol and no input or output: it takes what was
read and says what is to be written. `app/` is the program around it: sockets, TLS, timers, files and
the command line.

| Module | What it holds |
|---|---|
| `bytes`, `text`, `addr`, `table` | byte strings, text, addresses, tables of values under keys |
| `encoding`, `codec`, `packet`, `wire` | base32 and UTF-8, the binary encoding, framing, the messages |
| `crypto`, `identity`, `tls` | signatures, handshake and circuit cipher; keys and addresses; certificates |
| `exit_policy`, `policy_laws` | which destinations a relay dials, and that only the words of its rules matter |
| `descriptor`, `directory`, `gossip` | signed descriptors, what a node knows, how nodes come to agree |
| `circuit`, `relay`, `relay_laws` | circuits, what a relay does with each packet, what holds of it |
| `onion`, `link`, `client` | the layers of a circuit, a client's end of it, building it hop by hop |
| `onion_laws`, `flow_laws` | what holds of a circuit as a whole, and of data over a whole connection |
| `socks`, `hidden_service` | the SOCKS5 session, the service's side |
| `metrics`, `random` | counters and rates, random choices |

Types have a mathematical view, and the contracts are stated over the views: `relay_step` says what a
relay does with a cell, `session_step` what the proxy does with an event, `resolved` which key a name
stands for. Functions whose name begins with `law_` are proofs of what holds across calls: that every hop
of a circuit shares a key of its own with the client, that a cell is interpreted by the hop it is for and
by no earlier one, unless what is left of it under the later layers happens to read as a cell for an
earlier hop (cells carry no digest that would tell), that no byte of a connection is lost as long as the
keystreams last, that an introduction reaches the service
unchanged, that an exchange of gossip brings two directories together.

The cryptographic primitives, `bincode`, `base32`, `rand` and `rcgen` are called behind small functions
marked `external_body`. Their contracts are trusted. Each says in its comment what it claims.
