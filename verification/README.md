# korean_dict

A tool for learning Korean from subtitled video: upload a tab-separated deck
of subtitle lines, step through the lines, see which words of each sentence
are new, look them up in the Korean learners' dictionary and save flashcards.

- `src/` is the verified library (Verus): SRT subtitle parsing and rendering,
  the deck reader and its cursor, the morpheme-to-word pipeline for the
  Komoran and Khaiii analyzers, dictionary-answer extraction, and the page
  decisions (which words to show, which line is next or previous). The
  `laws_*` modules and the public proof functions beside the code state and
  prove properties that span several calls, such as reading back a rendered
  subtitle file.
- `tests/` runs the library on concrete inputs.
- `app/` is the web server (axum, SQLite through sqlx, the dictionary service
  through reqwest, the analyzers as Python scripts).
