# snarf

`snarf` fetches things from the web for people and programs on a command line: search
results, code, documentation, pages as markdown, and whole sites.

The library under `src/` holds what the commands decide and compute. All of it is written in
[Verus](https://github.com/verus-lang/verus): each function states in its contract what it
returns, and the contracts are proved. What several functions promise together stands in
proof functions whose names begin with `law_`.

- `text`, `duration`, `types`, `error`: texts, spans of time, results and errors.
- `web`, `html`, `pattern`, `system`: the calls into other crates, with what is known of them.
- `extract`, `scrape`, `pages`: pages as markdown, and how they are fetched and shown.
- `crawl`, `sitemap`, `status`: crawls of a site and what is remembered of them.
- `search`, `code_search`, `docs`: the questions to search services and their answers.
- `cache`, `config`, `urlrewrite`, `updatecheck`: what is stored between runs.
- `cli`, `output`: errors, exit codes and what is printed.

The program itself is under `app/`: arguments, files, the network and processes.
