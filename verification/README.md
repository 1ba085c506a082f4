# bastion_dashboard

A dashboard for the reverse SSH tunnels held open through an SSH bastion
host. The library finds the tunnels in the output of `ps aux`, `ss -tlnpH`
and `ss -tnpH state established`, keeps the current list, and renders it as
HTML; its behaviour is stated in Verus contracts and proved.

Layout:

- `src/text.rs`: line and word splitting, substring search, unsigned
  integer parsing and decimal rendering over character sequences.
- `src/ps_output.rs`: reading `ps aux` lines: sshd tunnel sessions and
  ssh/autossh client command lines.
- `src/ss_output.rs`: reading `ss` output: sshd's listening tunnel ports
  and the client address of each sshd session.
- `src/ssh_monitor.rs`: the matching of sessions to ports, the refresh, and
  the monitor itself.
- `src/models.rs`: the connection record and the snapshot the dashboard
  reports.
- `src/render.rs`: the HTML fragment that lists the connections.
- `src/laws.rs`: properties that hold for every input.
- `src/foreign.rs`: the calls into `regex` and into parts of `std` without
  a Verus specification, with the contracts they are trusted to meet.
- `app/`: the HTTP server (actix-web), the periodic refresh that runs the
  commands, and JSON serialisation. It serves `index.html`, `style.css` and
  `script.js` from a `templates/` directory beside the working directory.
