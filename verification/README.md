# vpn_core

The core of a client for Fortinet SSL-VPN gateways, written in Verus.

`src/` holds the protocol and every decision of the client, each function with
a contract that Verus proves:

- logging in to the portal: host names, forms, cookies (`host`, `auth`,
  `cookies`);
- the HTTP exchanges on the TLS connections, as machines that are fed with what
  a read gave (`http_text`, `http_body`, `tls_http`, `stream`);
- the tunnel configuration in XML (`xml`, `config_xml`);
- tunnel frames, PPP and the data phase (`ppp_proto`, `ppp`, `io`);
- routes, name servers and name resolution rules, and how to undo them
  (`net_command`, `net_windows`, `netmask`, `routes`, `teardown`, `snapshot`);
- a session from the first request to the last packet (`connect`, `session`);
- the settings of a build and the driver library that it ships (`build_env`,
  `wintun`, `archive`), and the text, number and byte functions that the rest
  stands on (`text`, `numbers`, `bytes`, `json`, `error_chain`).

Each module ends with its laws: public proof functions that say what holds of
the module as a whole, such as that a frame is read back as it was built, or
that everything a session changes is undone.

`app/` is the program around the library: TLS, HTTP, the network interface,
processes, files and the key ring. It asks the library what to do next and
hands in what came of it.

`tests/` runs the library on concrete values.
