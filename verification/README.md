# wsprrs

A WSPR decoder daemon for [ka9q-radio](https://github.com/ka9q/ka9q-radio), with
its logic verified by [Verus](https://github.com/verus-lang/verus).

`wsprrs` joins a ka9q-radio multicast group, learns the active mono channels from
the status stream, gathers audio in windows aligned to even UTC minutes, runs
`wsprd` on each window, and logs the decoded spots as JSON, one object per line.

## Layout

| Path     | What it holds |
|----------|---------------|
| `src/`   | the verified library: datagram formats, capture windows, WAV files, spot parsing, configuration |
| `app/`   | the daemon: sockets, environment, files, the `wsprd` subprocess, logging |
| `tests/` | tests of the library |

Laws that relate several functions are the public `law_*` proof functions of
each module.

The library holds no floating point.  Frequencies travel as the bit pattern of a
double, real-valued columns of a spot as text, and the wall-clock position of a
window's first packet comes in as a sample count.

## What is trusted

* `String::push` appends one character.
* `String::from_utf8_lossy` depends on its bytes alone and decodes valid UTF-8 as
  it stands.
* `std::io::Error` is carried through unread.

## Configuration

| Variable               | Required | Default           | Meaning |
|------------------------|----------|-------------------|---------|
| `WSPR_MULTICAST_ADDR`  | yes      |                   | multicast group, IP address or host name |
| `WSPR_MULTICAST_PORT`  | yes      |                   | UDP port of the RTP stream |
| `WSPR_STATUS_PORT`     | no       | `5006`            | UDP port of the status stream |
| `WSPR_LOCAL_ADDR`      | no       | `0.0.0.0`         | local interface address |
| `WSPR_SSRC`            | no       | all mono channels | hexadecimal SSRC to track |
| `WSPR_CAPTURE_SECONDS` | no       | `116`             | window length in seconds, at least 111 |
| `WSPR_TEMP_DIR`        | no       | `/tmp`            | directory for temporary files |
| `WSPR_WSPRD_PATH`      | no       | `wsprd`           | path or name of `wsprd` |
| `WSPR_OUTPUT_FILE`     | no       | none              | file to which spots are appended |
| `WSPR_WISDOM_FILE`     | no       | `wspr_wisdom.dat` | FFTW wisdom file |
