# Weaver

Weaver is a local-first network layer: members of a virtual network hold signed certificates,
follow a chain of encrypted configurations, find each other on the local network or through an
opaque presence service, and open streams and datagram sockets to virtual addresses.

This crate is the logic of such a network, verified with Verus. It reads no clock, opens no file
and no socket: times are arguments, and whatever has to be fetched, stored or sent is asked for
step by step.

## Layout

`src/` is the verified library.

- `identifiers`, `virtual_name`: names of networks, applications, devices, members and endpoints.
- `wire`, `order`, `digits`, `text`: bytes, sorted lists, hexadecimal digits and messages.
- `crypto`: keys and the certificates that they sign.
- `config`: configurations, their validation, their encryption and the chain that they form.
- `discovery`: presence records, the address lookup, and protected discovery on a local network.
- `net`: protocols between endpoints, who is let in, stored configurations, joining a network, and
  the loops that keep configurations and presence current.
- `provisioning`, `fixture`, `workload`: what the command line and the network benchmark decide.
- `outside`: every call into another crate, with what is taken for granted of it.

`app/` performs what the library asks for: storage, sockets, timers, the command line.

`tests/` runs the library with the real cryptography.

## What is proved

Every function says in its contract what it returns for every input that it takes. Where chance
decides, the contract says what holds of every outcome, and another function takes the drawn values
as arguments.

Proof functions named `law_` state what holds of several functions together: that the byte encodings
of certificates, configurations, envelopes, records and requests are read back unchanged and have
one form only in each version, that a configuration that is opened was signed and moves the chain forward, that a
record that is accepted was authorised, that a crash leaves no record without its secret.

Nothing is proved of the strength of the cryptography. Hashes, signatures and ciphertexts are named
functions of their arguments; of these, `outside` says only that what was signed verifies and what
was sealed opens.
