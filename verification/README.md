# paymonero_ui

The verified core of a small web UI for Monero invoices: an admin dashboard with
paged invoice lists, an invoice detail page, and a public payment page with a QR code.

- `src/` is the library, checked by Verus: the written forms of XMR amounts
  (`amount`, `decimal`, `models`), the template filters (`filters`), the page links of
  the dashboard (`pagination`), what each page computes from the rows it reads
  (`pages`), the QR drawing (`qr`), and the properties proved of them (`laws`).
  `outside` declares the types of outside crates and the trusted calls into them.
- `app/` is the web server around it: routes, database queries, templates, and the
  filters that read the clock or use floating point.
- `tests/` runs the library on concrete values.
