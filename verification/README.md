# merchant_monitor

Watches a trader's EVE Online market orders and tells the trader on Telegram
when an order loses or gains places against rival orders, loses all of its
rivals, or disappears.

- `src/` is the verified library: prices (held by the bit pattern of their
  `f64`, compared as `f64` compares), the standing of an order among its
  rivals, what to report of a change and its wording, the bookkeeping of saved orders, token
  renewal, the JSON documents of the API answers (parsed by the `json` crate)
  and the readers of their fields, and the paths, paging and retries of the
  web requests.
- `app/` is the program around it: the MongoDB store, the HTTP requests, the
  `f64` values of JSON numbers, how prices are shown, and the five-minute
  loop.
- `tests/` exercises the library on concrete values.
