# alfwin

A verified library behind an Alfred extension that switches to an open
window, a Chrome tab, an iTerm session or a recent IntelliJ IDEA project.

- `src/` is the library, with its specifications and proofs:
  - `text`: splitting, trimming, ASCII lower-casing, decimal numbers,
    replacing, each with a specification over sequences of characters;
  - `alfred`: the items of Alfred's script-filter answer;
  - `launch`: the switch targets, the texts and icon of their items, and the
    application icon lookup;
  - `tabs`: parsing the Chrome and iTerm tab listings;
  - `results`: the windows to offer and the default answer;
  - `intellij`: the recent-projects answer.
- `app/` is the program: command line, running the AppleScripts, reading the
  window server and the disk, and printing JSON.
- `tests/` runs the library on concrete values.
