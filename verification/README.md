# boxnovel

A chat bot that follows web novels: users link a novel's page to a channel, and the
bot posts a message for every chapter published since the last check.

- `src/` is the verified library (Verus):
  - `text`: white space, words of a text, joined lists of strings, and the laws that
    stored chapter lists read back unchanged.
  - `ids`: decimal ids, written and read back.
  - `structures`: the records kept for novels, chapters and linked rows.
  - `scrape`: reading a novel's page (title and chapter links) through the HTML parser
    and the regular expression engine.
  - `replies`: what each command decides and answers.
  - `updates`: the chapters that are new since the last check and the announcements
    to post for them.
- `app/` is the bot itself: the chat client, the database, the web requests and the
  periodic check, calling the library for every decision.
- `tests/` exercises the library on concrete values.
