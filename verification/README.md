# zlink

A verified core for [Varlink](https://varlink.org) IPC, written in Verus.

`src/` is the library; every function in it carries a contract that Verus proves:

- `names` — the three Varlink name grammars (field, type, interface) as byte-level
  predicates, with longest-prefix scanners and validated name types.
- `idl` — the interface definition language: its data model, a parser whose result is
  stated against a grammar written as spec functions, and the field-list helpers used to
  inline flattened fields. `idl::wellformed` proves that the parser yields exactly the names
  the validators accept.
- `naming` — `rename` / `rename_all` resolution and validation for derived names.
- `service`, `attr_mode`, `return_shape` — the decisions of the service macro: names and
  interface constants, parameter and return-type checks, interface grouping, and the
  `GetInfo` / `GetInterfaceDescription` answers.
- `json` — compact JSON written straight into a byte slice, refusing what does not fit;
  escaped strings are proved to be valid JSON string bodies.
- `connection` — NUL-framed messages: the read side's buffering and splitting, the write
  side's framing and flush plan, with the framing round trip proved.
- `call` — the method call envelope and the decisions taken while reading one.
- `varlink_service` — the `org.varlink.service` interface's types and error names.
- `codegen` — the code generator driver's decisions and file naming.

`app/` holds what cannot be verified here: serde glue, socket I/O and async plumbing,
floating-point formatting, and the code generator's file handling. `tests/` exercises the
library from outside.

The procedural macros (`service`, `proxy`, the derives) and the IDL code generator emit Rust
tokens with `quote!` over `syn` syntax trees. That emission is not part of this crate: what is
here are the decisions the emitted code rests on (names, constants, interface grouping, the
parameter and streaming checks), each with its contract. Pipelined calls, the listener and the
server loop are likewise left to the caller, over the read and write sides of `connection`.
