# home_mng

A command-line tool that manages home-automation devices over CoAP: it finds
the services that devices offer, provisions devices, reads and writes their
resources, and asks them to fetch firmware updates.

- `src/` is the library, verified with Verus: reading the values and payloads
  a user gives (`text`, `value`, `payload`), the CBOR data model (`cbor`),
  the CoAP numbers (`codes`), the requests sent to devices and the reading of
  their answers (`coap`), gathering the answers to a service search
  (`discovery`) and choosing the local address for firmware updates (`net`).
- `app/` is the program around it: command-line parsing, sockets, the CoAP
  client and the CBOR encoding of the library's data items.
- `tests/` runs the library on concrete values.
