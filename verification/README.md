# symphony-rs

A service that works on the issues of a tracker: it polls Linear, starts an
agent for each issue that may be worked on, follows what the agents report, and
tries again what failed. What it does is decided by a library in Verus, whose
functions carry contracts that are proved; the program around it does the
input and output.

## Commands

```bash
symphony-rs validate [WORKFLOW.md]
symphony-rs snapshot [WORKFLOW.md]
symphony-rs once [WORKFLOW.md]
symphony-rs serve [WORKFLOW.md] --i-understand-that-this-will-be-running-without-the-usual-guardrails
```

## Layout

The library, `src/`:

- `text`, `ordered`, `json`, `timestamp`, `path_safety`, `environment`: texts,
  maps in key order, JSON values, points in time, paths and the surroundings of
  the process, each with its mathematical model
- `domain`, `config`, `workflow`, `prompt`: issues and sessions, the
  configuration, workflow files and prompt templates
- `orchestrator`, `accounting`, `schedule`, `service`: which issues are started,
  what sessions have used, and what happens when attempts report, stall or end
- `codex`, `runner`, `workspace`, `ssh`, `linear`, `tracker`, `cli`: what is sent
  to the agent, to the shell, to remote hosts and to the tracker, and what
  follows from the answers

The program, `app/`: files, processes, the network, threads and serde.

The functions of `serde_json`, `serde_yaml`, `chrono` and std that the library
calls stand behind small functions marked `external_body`, each with a comment
that says what its contract claims.
