# jj_vine

Stacked merge requests for [Jujutsu](https://github.com/jj-vcs/jj) repositories, as a Verus
library with a thin command line layer.

* `src/` is the library. Everything in it is verified: the configuration and where its values
  come from, the addresses of forges, changes, bookmarks and the graph that they form, the
  commands that are run and what their answers mean, pushing, linking stacks on GitHub, and the
  course of the `submit` and `init` commands.
* `app/` runs the commands, reads JSON and TOML into values, and talks to the operator.
* `tests/` holds the tests of the library.

The library runs nothing and prints nothing. `submit` and `init` are state machines: each step
takes an event and gives the next state with an action, which the caller carries out.

What the library believes without proof stands in functions marked
`#[verifier::external_body]`, in one `assume_specification` and in one declared type: terminal
colors (`style.rs`), UTF-8 decoding (`bytes.rs`), lower case and white space (`text.rs`), TOML
(`toml_text.rs`), word boundaries (`wrap.rs`), the table of merge requests (`submit.rs`) and
the debug format of std (`jujutsu.rs`). The laws of the library are its public proof functions.
