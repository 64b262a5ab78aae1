# rari_doc

The document model of the MDN documentation build, as a verified library.

- `src/` is the library. Each module states what its functions do in their contracts
  (`requires` / `ensures` over sequences, maps and views of the data), and Verus proves
  the code against them. Public `law_*` proof functions state properties that relate
  several calls or hold of every input (for example, that a redirect keeps the link's
  fragment, that the curriculum sidebar follows the order of the files, or that rewritten
  ids stay unique).
- `app/` is the plumbing around it that the verifier does not see: the tracing layer that
  collects build issues, the `lol_html` rewriting passes that hand each selected element
  to the library's decisions, reading a `scraper` document into the library's nodes, and
  the comparisons that work on floating-point numbers.
- `tests/` run the library on concrete values.

Pages, reading and rendering are outside the library: where a decision depends on what is
on disk (whether a page exists, the page a URL names), the library takes the answer as an
argument or as a closure, and its contract holds whatever the answer is.
