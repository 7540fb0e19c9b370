# budget_bot

A Telegram bot that books pasted receipts into a Notion spending database,
and a scheduler that opens a new budget period for each category.

- `src/` is the verified library: categories and their names, tags,
  schedules and amounts (`category`); splitting text into words and lines
  (`text`); reading receipts (`check`, with the regex search in `pattern`);
  and the dialogue's decisions: which handler answers a message, the state
  that each message leads to, which messages are deleted afterwards, the
  balance report (`dialogue`).
- `app/` runs the bot (`budget_bot`) and the scheduler
  (`budget_bot scheduler`): Telegram, HTTP to Notion, JSON
  pages, the clock, and prices as floating-point numbers.
- `tests/` exercises the library, and compares its word and line
  splitting with the standard library's.
