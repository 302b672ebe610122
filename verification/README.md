# Eternal Terminal client

A client for [Eternal Terminal](https://eternalterminal.dev/), protocol version 6: a
remote shell that reconnects without interrupting the session.

The library in `src/` is verified with Verus. It makes no system calls: each operation
says what is to be done with a socket, the console or ssh, and is told what came of it.
The program in `app/` does that work.

| Module | What it holds |
|--------|---------------|
| `proto` | the protobuf messages and their framing |
| `packet`, `crypto` | packets, and their encryption with XSalsa20-Poly1305 |
| `backed` | the two ends of a recoverable stream |
| `recovery` | what the two ends do together: every packet arrives once and in order |
| `connection` | a connection: reading and writing packets, losing the socket and getting a new one |
| `handshake` | the messages by which a connection is opened, and opened again |
| `client` | the session: terminal input and output, window size, keepalives |
| `terminal` | what keys and events of the console stand for |
| `host`, `cli` | destinations and the other choices of the command line |
| `ssh_setup` | the ssh command, and the keys in what it prints |
| `text`, `byte_order`, `io` | what the others are built on |

What is taken on trust is marked `external_body` or `assume_specification`, each with
its claims beside it: the cipher of `crypto_secretbox`, a random number of `rand`, and
three functions of the standard library.
