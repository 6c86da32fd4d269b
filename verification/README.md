# practice_quiz

A practice-quiz application: load a quiz file in JSON, choose questions by topic
and study location, answer a shuffled session of them, and review the results.

* `src/` is the library, verified with Verus: the quiz model (`model`), checks on a
  loaded quiz (`validate`), topic and location lists (`topics`), question filters
  (`filter`, regular expressions through the `regex` crate), sessions (`session`,
  shuffling through the `rand` crate; option labels and ids in `labels`), the
  options chosen (`selections`), scoring (`scoring`), results (`results`), the
  field reference of the file format (`schema`) and the colour theme (`theme`).
  The mark per question is a floating-point number chosen by the quiz author;
  the library never computes with it and is generic over its type. Scores are
  given as an exact share of the marks.
* `app/` is the Dioxus web application around it: the screens, reading files
  and browser storage, JSON parsing with serde, and the floating-point
  arithmetic of scores and percentages.
* `tests/` runs the library on concrete quizzes.
