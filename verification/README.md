# RustyPac

RustyPac is a small external downloader for pacman. It writes to pacman's exact `.part` path,
shows an adaptive progress row, and can enable or disable itself in `pacman.conf` without touching
anything else there.

What the program decides is a library in `src/`, verified with Verus. What it does to the outside
world (files, signals, the network, the terminal) is in `app/`.

## The library

| Module | What it decides |
| --- | --- |
| `cli` | what the arguments ask for |
| `bytes`, `lines`, `text`, `utf8`, `numbers` | byte strings, lines of a file, text, encoding, decimal numbers |
| `config` | which downloader a configuration names, and which bytes enable or disable RustyPac |
| `config_apply` | in which order a planned edit takes the place of the file, and when it is given up |
| `config_interaction` | the dialogue with the user |
| `progress`, `figures`, `cells`, `render` | the row of a download: figures, cells of a terminal, layout, color |
| `frames` | when a row is written, and what is written around it |
| `paths` | the names that are shown, asked for and written |
| `signals`, `download` | what signals ask for, and the course of a download from lock to last row |
| `lock` | who holds the lock of an output, and when a stale one is removed |

The modules whose names end in `_laws` hold no code that runs. They state what holds across calls:
that enabling twice is enabling once, that disabling restores the downloader that was set aside,
that only a readable output that is not empty counts as complete, that a transfer that fails brings
back what could be resumed before it, that the lock of a live process is never removed, that two who
take a lock at the same time never both have it, and so on.

The courses of a download, of a dialogue, of an edit and of a lock are state machines: `action`
says what is to be done next, and `handle` takes what has happened. `app/` performs the actions.

Three functions from outside are trusted: `UnicodeWidthStr::width` counts the cells of a text,
`String::from_utf8` decodes bytes, and `String::push` appends a character. What is claimed of each
stands above it.

## The program

```text
RustyPac URL OUTPUT
RustyPac --enable
RustyPac --disable
```

A zero exit means that the output is complete, readable and not empty. Everything else, a missing
optional database signature too, exits with another number.
