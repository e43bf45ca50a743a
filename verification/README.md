# frcc

The FRC card collecting site: teams design trading cards of their robots,
visitors scan printed cards to collect them, and team and site admins manage
members and invites.

- `src/` is the verified library. It keeps an in-memory image of the site's
  tables (`tables`, `state`), answers every page (`frontend`) and API endpoint
  (`api`, `designs`) as a function from that image and the request to the
  answer and the rows to write, and plans printed cards (`card_gen`). Each
  public function states its result and its effect on the tables; `laws`
  states what one request leaves behind for the next.
- `tests/` exercises the library on concrete tables.
- `app/` is the server around it: HTTP routing and cookies (axum), the sqlite
  database and its schema (sea-orm), templates (tera), drawing cards (resvg),
  typesetting printouts and storing 3D models (tmf).
