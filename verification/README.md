# genos

The verified core of genos, a bare-metal operating system whose every
decision is a structured tool call made by a language model.

- `src/` is the library, checked by Verus: JSON, GGUF model files, the
  key/value cache layout, system configuration, the MCP client, server,
  wire format, transport framing, security policy and runtime, the tool
  registry and policy engine, the memory palace (facts, halls, journal,
  temporal entity graph, memory tools), context compaction and
  consolidation, the wake-up prompt, web page reading (markup to chunks,
  links, feeds, the `llms.txt`-first page reader) and the stdio bridge's
  request handling. Tools that need the disk, the network or the clock
  take what was read as arguments and hand back what is to be written.
- `tests/` exercises the library from outside.
- `app/` is the hosted program around it: file and network I/O, the
  MCP stdio bridge's sockets and child process, floating-point code
  (search scoring, sampling, tokenizer merges), and the tool loop.

The hosted program runs tool calls and the memory palace only: it loads
no model and runs no inference. The transformer's forward pass and
attention are floating-point work that the library does not hold; the
sampler and tokenizer kept in `app/` are not wired to a model.
