# radb

A client library for the Android Debug Bridge (ADB) protocol, verified with Verus.

`src/` holds the verified library: message encoding and decoding, the CNXN/AUTH
handshake, RSA key handling for authentication (the ADB public-key layout, the
PKCS#1 v1.5 signature of AUTH tokens, PKCS#8 PEM load and save), stream state and
routing, shell v1/v2 framing, sync (push/pull) packets, local-server request
framing and reply handling, device-list parsing, and the command strings for
device management and touch input. Every function carries a contract that Verus
proves; the properties that span several functions are stated as public proof
functions (`lemma_*`).

The RSA arithmetic, key generation and PEM encoding are done by the `rsa` and
`pkcs8` crates; the library calls them through small trusted wrappers in
`src/keypair.rs`, each of which documents what its contract claims.

`app/` holds the unverified rest: sockets, files, processes, the async tasks
that drive the verified state machines, and port forwarding.

`tests/` exercises the library on concrete values.
