# annessaia

A runtime for small WebAssembly apps, a registry node that lists and searches them, and
the apps that come with both. The logic is a library, verified with Verus; what talks to
the disk, the network, a window or the sound card is a thin program around it.

## Layout

`src/` is the verified library.

- Text and data: `text`, `numerals`, `names`, `order`, `ledger`, `slots`, `table`.
- The registry node: `entry` (an app and its wire forms), `search`, `vectors`, `ratings`,
  `registry`, `gossip` (what peers tell each other), `peers`, `admin`, `upload`, `reports`,
  `replies`, `node`.
- The host of a guest: `host`, `memory`, `input`, `storage`, `net`, `embed`, `image`,
  `widget`, `layout`, `sys`, `nav`, `browser`, `package` (modules, hash trailers and
  packages).
- What guests draw with: `color`, `pixel`, `canvas`, `scene`, `png`, `digits`, `chance`,
  `prelude`.
- The apps: `search_app` and `search_view`, `admin_app`, `gallery`, `calculator`, `paint`,
  `canvas_view`, `demos`, `nova`, `prism`, with `requests` and `urls`. Their pages are
  computed as data by `page`, `search_page`, `admin_page`, `calculator_page` and
  `gallery_page`.
- The command-line tools: `cli`.

`app/` is the program: HTTP routes, sockets, files, WebAssembly instances, the window, and
everything that is floating point (ranking, physics, colours by hue, sound). Parts of it
that need a model, a window, file dialogs or a sound card are behind the features `ai`,
`window`, `dialogs` and `sound`.

`tests/` runs the library on concrete values.

## What is proved

Public functions state their results over mathematical models: entries and registries as
sequences and maps, texts as sequences of characters, memory as bytes. The results are exact
but for what chance decides, such as a fresh token, and for archives of 4 GiB and more. On top
of that, public proof functions state what holds of several calls together: that a
wire form reads back what was written, that two nodes which heard the same ratings and open
counts agree in whatever order they heard them, that gossip settles, that a package below
4 GiB gives back the module and the assets bundled into it, that going back and then forward leads to
where one was, that a page closes every container it opens, and so on. Each comes with the
condition under which it holds.

What comes from outside (hashing, passwords, archives, base64, image decoding, random
numbers, a few functions of the standard library) enters through small wrappers, each with a comment that
says what is taken on trust.
