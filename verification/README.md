# netplane

An SDN overlay network: clients tunnel IPv4 traffic from a TUN device through
a relay server (UDP or WebSocket), encrypted end to end between peers with
the Noise protocol.

* `src/` is the verified library (Verus): the wire format of the control
  protocol, IPv4 and subnet arithmetic, signed authentication keys, the
  client's Noise sessions with its peers, the client's and the server's
  decisions on every datagram and packet, the server's peer table, the DNS
  responder, the traffic log, the routing commands of exit nodes, the
  link-code exchange with the authentication server (its URLs, requests and
  replies), and the web interface's decisions (client networks, link codes,
  logins).
* `app/` is the program around it: sockets, WebSockets, the TUN device,
  files and the event loops that perform the library's actions
  (`netplane client`, `server`, `link`, `replay`, `keys`).
* `tests/` runs the library with the real `snow`, `base64`, `hmac`, `hex`,
  `bcrypt` and `bincode` crates.
