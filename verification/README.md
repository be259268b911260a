# ttysvg

Terminal recordings as one self-contained, animated SVG.

`src/` is the library, verified with Verus: the tape format (reading and
writing, with the proof that a written tape reads back as itself), the
terminal grid snapshots, the timeline optimizer, the SVG emitter, themes and
theme import, redaction, saved captures, bitmap timing and patches, and the
interactive wizard's state machine. `app/` is the program around it: the
command line, the pseudo terminal, files, theme files, JSON captures, the
bitmap encoders and the terminal user interface.

The built-in themes are read at run time from a `themes` directory beside
the program or in the working directory, one `<name>.toml` file per theme;
themes of your own go in `ttysvg/themes` under the configuration directory,
or can be named by path.
