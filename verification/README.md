# sosial_video

The services behind Sosial Video, a social live-video application: a contact
service (sign-in, sign-up with email confirmation, presence, live broadcasts,
join requests, reactions, comments and speech logs) and a media relay that
forwards each publisher's tracks to its subscribers.

## Layout

- `src/` is the library, verified with Verus. It holds every rule the
  services apply: what a request is answered, what is stored, who may see
  what, and the registry of publishers the relay keeps. Each public function
  states its result in its contract; the `law_*` proof functions state the
  properties that hold across calls (an expired sign-up is never activated,
  a private broadcast never reaches the public list, a listener never
  speaks, a removed publisher is gone, and so on).
- `src/` calls `bcrypt`, `chrono` and `uuid` through small trusted wrappers,
  each with a doc comment saying what its contract claims.
- `tests/` runs the library on concrete values.
- `app/` is the program around it: HTTP routes (axum), PostgreSQL
  (deadpool-postgres), email (lettre), files, and the WebRTC relay. It reads
  requests and the database, hands plain values to the library, and sends
  back what the library decides. `sosial-video sfu` runs the relay; without
  that argument the contact service runs.

## Configuration

The contact service reads `LISTEN_ADDR`, `PG_HOST`, `PG_PORT`, `PG_USER`,
`PG_PASSWORD`, `PG_DB`, `PUBLIC_APP_URL`, `SMTP_HOST`, `SMTP_PORT`,
`SMTP_FROM`, `SMTP_USERNAME`, `SMTP_PASSWORD` and `TRANSCRIPT_LOG_DIR`; the
relay reads `LISTEN_ADDR`, `WEBRTC_UDP_PORT_MIN`, `WEBRTC_UDP_PORT_MAX` and
`WEBRTC_ANNOUNCED_IP`.
