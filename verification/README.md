# remote-bridge

A bridge that lets a coding agent work on a SLURM cluster over one SSH
session, inside a sandbox: it may read only under the configured read paths,
and the jobs it submits run in Singularity containers that can write only
under the configured write paths.

## Layout

- `src/` is the verified library (Verus). It holds everything the bridge
  decides: path canonicalization and permission checks, shell quoting, the
  command line of every RPC method and the parsing of what the remote side
  prints, the generation of sandboxed batch scripts, the job-wait machine,
  the reading of the SSH session's output between markers, and the laws that
  tie these together (quoted arguments read back unchanged, validated paths
  are confined and canonical, sandbox mounts stay within the permissions, a
  sandboxed script runs its command only inside the container, scripts stay
  inside their directory).
  - `text.rs`, `paths.rs`, `shell.rs`: characters, lines, paths, quoting.
  - `config.rs`, `error.rs`, `locations.rs`: permissions, integrity, errors,
    where files live.
  - `commands/`: requests, responses and output parsers per command family.
  - `sbatch.rs`: sandboxed script generation.
  - `rpc/`: each method as a step that writes the command line and a step
    that builds the answer from the command's output; `job_wait.rs` and
    `sandbox.rs` are the multi-step methods; `dispatch.rs` names the methods.
  - `ssh.rs`, `o2.rs`: the SSH session's markers, output and sign-in wait,
    and the ControlMaster connection of the o2 bridge.
- `app/` is the program around the library: the command line, the Unix-socket
  JSON-RPC server, the pseudo-terminal SSH session, file I/O for the
  configuration, and the serde shapes of the library's types.
- `tests/` exercises the library on concrete values.
