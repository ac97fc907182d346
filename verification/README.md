# conectdesk_agent

The agent that runs inside the ConectDesk service and keeps a machine in touch with its panel. It
enrolls, sends a heartbeat every thirty seconds, applies what the reply asks for, reports on the
machine, watches programs and devices, and updates itself when the panel says so.

The library decides and the host acts. Every decision stands in `src/` as a function from plain
values to plain values, with a contract that Verus proves.

- `agent`: the course of the agent, from what happened to what is done next.
- `api`: requests to the panel and its replies.
- `actions`, `command`: remote commands and the programs they run.
- `settings`, `sessions`, `branding`: what the user interface shows.
- `sysinfo`, `inventory`, `disks`, `processes`, `health`: reports on the machine.
- `watchdog`, `devices`, `wol`: programs, devices and sleeping machines of the site.
- `feed`, `update`: newer builds, from the feed to the installer, step by step.
- `json`, `text`, `base64`: the data formats.
- `outside`: what the library takes on trust from the standard library and from sha2. What it takes
  from serde_json, to read and to write JSON, stands in `json`.

`app/` holds the driver: it performs the effects over HTTP, files, sockets and processes, and hands
back what came of them. The service that hosts it supplies the settings.

Properties that hold across functions are proof functions whose names begin with `law_`.
