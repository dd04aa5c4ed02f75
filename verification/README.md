# MicSync

One microphone, shared across every computer on the LAN. The microphone is
plugged into one machine, the server; other machines use it as if it were their
own, through a virtual loopback device.

`src/` is the library: the protocol and its rules. Verus proves the contract of
each function, except of these seven, which stand for calls into other crates and
the standard library; their contracts are trusted:

| Trusted | The call that it stands for |
| --- | --- |
| `text`: `String::push` | itself |
| `http::utf8_text` | `String::from_utf8` |
| `http::utf8_text_lossy` | `String::from_utf8_lossy` |
| `json::read_json` | `serde_json::from_slice` |
| `json::write_json` | `serde_json::Value::to_string` |
| `settings::host_name` | `gethostname::gethostname` |
| `discovery::interfaces` | `local_ip_address::list_afinet_netifas` |

The modules:

| Module | What it holds |
| --- | --- |
| `text`, `json`, `http` | texts, flat JSON documents, HTTP heads |
| `wire`, `adpcm` | the stream's frames, the ADPCM codec |
| `settings` | names, ids, tokens: whom this device trusts |
| `server` | consent, sessions, answers |
| `client` | claiming a stream, and every way that can go |
| `follow`, `micuse` | auto-follow and the signs that it goes by |
| `discovery` | finding servers by multicast and by scanning |
| `audio`, `platform`, `status` | devices, meters, buffers; what is shown |

The laws that hold across functions are the public proof functions whose names
begin with `law_`.

`app/` is the program around the library: sockets, threads, sound cards and the
window. `tests/` run the library.
