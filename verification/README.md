# xsolla_callback

The server side of a payment integration: it obtains payment tokens, sends
buyers to the payment window, and authenticates and answers payment webhooks.

- `src/` is the library, verified with Verus:
  - `text`: byte-order comparison of strings, trimming, prefixes, decimal and
    hexadecimal rendering;
  - `json`: a model of JSON values whose objects keep each key once;
  - `signature`: the SHA-1 signature of a JSON request's fields (password and
    fields in key order, joined with `|`) and of a webhook body with the
    secret key, with the laws that key order, skipped keys and empty fields
    do not change a signature;
  - `address`: the networks from which webhooks may come;
  - `callback`: the webhook endpoint's answer, with the laws that a request
    from a webhook source carrying its body's signature is answered by its
    parsed body alone, and that no other request gets a non-error answer;
  - `pages`: the index page's answer;
  - `token`: the token request, its steps, and the purchase redirect;
  - `api_types`, `messages`: the data exchanged with the APIs.
- `app/` is the web server around it (routes, HTTP client, templates,
  configuration, and the serde forms of the data).
- `tests/` runs the library on concrete inputs.
