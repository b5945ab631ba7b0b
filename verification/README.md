# micro_c

Micro-C is a small compiler for a C-like language: a lexer, a recursive
descent parser, a generator of three-address intermediate code, and three
backends (raw x86_64, Windows x64, AArch64), with an interpreter that runs
programs from their syntax tree.

Every stage is written in Verus. Each stage has a mathematical model — a
spec function from the stage's input and state to its output and new state —
and the executable code is proved to compute exactly that model:

- `lexer`: `lex` gives the next token, the new position and the messages;
  only an unknown token brings a message, the end of input stays the end,
  and a token's text lexes back to the token.
- `parser_spec` / `parser`: the parse of a program, with a bound on the depth
  of the descent; parsing that ends gives one result whatever the bound.
- `codegen_spec` / `codegen_ir`: the IR and the generator's counters, with
  fresh temporaries and labels, code that is only ever appended, and every
  jump going to a label of the code.
- `arch`: the text each backend emits, the register each temporary gets and
  the stack slot each variable gets; x86 arithmetic computes its result
  whichever registers its operands share.
- `interp_spec` / `interpreter`: what running a program returns; what is
  written to memory or to a variable reads back.
- `compiler`: the whole pipeline, and the log of its messages.

The hash maps the code generator, the backends and the interpreter keep
their tables in come from `hashbrown`; what each map holds is named by a spec
function, and the few methods used state what they do to it. A stack frame
keeps its slots in vstd's `StringHashMap`. `app/` holds the web entry
points and the error log they read.
