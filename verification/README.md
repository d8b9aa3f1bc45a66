# bifrost_ha

The Home Assistant backend of a Philips Hue bridge emulator: it imports
Home Assistant lights and areas as Hue resources, makes WLED strips behave
like Hue gradient light strips, and turns Hue light updates into Home
Assistant service calls or direct WLED commands.

`src/` is the library, written in Verus; every function in it carries a
contract that Verus proves.

- `text`: string predicates and the parsing the backend relies on.
- `types`: the Home Assistant registry rows and states, and what a
  light's attributes say about its capabilities.
- `strmap`: a map keyed by strings, with its contents as a `Map` view.
- `order`: total orders on entity ids ranked by integer keys.
- `wled`: segment entities, the lights that drive a WLED device's
  gradient, and WLED lights driven over their own JSON API.
- `import`: which Home Assistant lights become Hue lights, and with which
  profile and capabilities.
- `runtime`: the queue of pending light updates, how each update is
  routed, and the commands sent when it is due.
- `store`: the lights imported into the Hue model, and the light sync
  (stale lights removed, then every state imported), proved idempotent.
- `ws`: decisions taken on Home Assistant websocket messages.

`app/` is the asynchronous client around the library: the websocket
connection, the WLED HTTP calls, the JSON wire format, and the floating
point work (brightness percentages, colour conversions). It writes into
the Hue model through the `HueModel` trait, which the Hue side of the
bridge implements.
