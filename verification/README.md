# openshell_vm

Host-side logic of the OpenShell VM stack, verified with Verus: OCI images for
microVM sandboxes, state disks and import sockets, the clean environment of
supervised containers, the gateway's VM compute driver, and the launch of a
libkrun microVM.

The library decides and computes; it does no I/O. A function that the host has to
carry out returns a plan (a list of steps with their paths, arguments and
contents) and takes what the host found as plain facts. Work that alternates with
the host is a step function from state and event to the next state.

- `src/text.rs`, `src/path.rs`, `src/string_map.rs`, `src/fault.rs`: texts, Unix
  paths as byte strings, ordered string maps, errors.
- `src/oci/`: references and registry answers, archives, layers with whiteouts,
  the sandbox user, launch metadata, the cache, squashfs images, and the preparation
  of an image.
- `src/state_disk.rs`, `src/container_env.rs`: what a sandbox needs on the host
  and in the guest.
- `src/config.rs`, `src/cli.rs`, `src/compute/`: the gateway server's options and
  the compute driver process.
- `src/vm/`, `src/gateway.rs`: launching and running a microVM, the control plane
  in it, and the standalone gateway command.

Functions named `law_..` state what holds of several operations together.

What the proofs rest on without proving it are the functions marked
`external_body`; each names the function that it calls.

`tests/` runs the library on concrete values. `app/` is the program around it:
argument parsing, files, processes, sockets and the registry.
