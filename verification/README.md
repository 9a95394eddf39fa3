# rotext

A library for the Rotext markup language, written in Verus: every function
in `src/` carries a contract that Verus proves.

## Layout

- `src/block/` — the block-level parser. `Parser::next` turns the input into
  a stream of block events (paragraphs, headings, code blocks, thematic
  breaks, block quotes, lists, description lists, tables). The line-level
  scanners (`block/line/`) handle text, verbatim escapings (`` <` … `> ``)
  and comments. The parser keeps an explicit stack of open blocks, generic
  over its storage (`utils/stack.rs`: a growable one and a fixed-size one).
- `src/blend/` — cuts the block events into the runs that the inline phase
  reads.
- `src/compiling/` — compiles the events of a document into runs of simple
  events and calls (templates and extensions) with their arguments.
- `src/executing/` — executes a compiled document (`mod.rs`): its runs of
  events go through the HTML renderer (`renderer.rs`), its calls of
  extensions become the elements that the extensions (`extensions.rs`) map
  them to, or error elements that name what went wrong.
- `src/events.rs`, `src/types.rs`, `src/common.rs`, `src/errors.rs` — the
  shared vocabulary.
- `tests/` — tests on concrete inputs.

## What is proved

`Parser::next` states how the parser got to where it is: by a run of moves
(`is_run`, `moved`), each of which either hands out the first pending
event or makes one step (`stepped`). A step is exact: an exiting step
(`exit_stepped`) exits the leaf block on top or the top entry as the
exiting asks and then does what comes after it; a parsing step
(`parsed_step`) skips the spaces, and parses an item-like opening, a braced
opening, a leaf opening or a line of the leaf block on top over what the
line scanners find (`normal_parsed`, `verbatim_parsed`). Each line scanner
admits one reading of a line from a given place
(`lemma_normal_parsed_unique`, `lemma_verbatim_parsed_unique`). An error comes only
when a push met a full stack. Besides, the parser's invariant states, for
every input and every sequence of calls of `Parser::next`:

- the events stay within the input, and each exit event closes the innermost
  open block; once the input is parsed through, no block is left open;
- counting each block entered as one up and each exit as one down, no
  prefix of the events counts below zero and the whole counts to zero
  (`lemma_nesting_counts`);
- block ids grow strictly in the order the blocks are met, and the
  generator hands out 1, 2, 3, … (`lemma_block_ids_count_up`);
- the texts that the events carry come in input order, without overlapping;
- the parsing ends, and only at the end of the input (or at the one error:
  a bounded stack running out of space).

Compiling is proved equal to its specification (`spec_compile`), rendering
to `Renderer::spec_render_events`, executing to `Executor::spec_execute`,
and the HTML escaping to keep `<` out of text and `"` out of attribute
values. A document without calls renders the same through compiling and
executing as through the renderer alone.
