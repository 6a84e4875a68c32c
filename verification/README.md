# ferrite

A self-hosted DNS server that blocks advertising and trackers, with its rules verified in
Verus.

`src/` is the library. Its executable functions have contracts, and Verus proves the code
against them. Only what reads the clock promises nothing of the time it returns.

| Module | What it holds |
| --- | --- |
| `blocklist` | list parsers, the block and allow rules, profiles, refreshing, explanations |
| `dns` | the handling of a query, the response cache, messages, datagrams and frames |
| `clients` | addresses and hardware addresses, the names of devices, name resolution |
| `api` | logins and sessions, settings, routing, statistics, tools, metrics |
| `config`, `panel`, `startup` | the configuration and its canonical form, what happens at the start |
| `text`, `ip`, `order`, `lru_cache` | texts, addresses, orders and caches that the rest is built of |

What holds of several functions together stands in public proof functions, most of them in
the modules named `laws`.

Calls into other crates stand behind small functions marked `external_body`, each with a
comment that says what is relied on.

`app/` is the program: listeners, files, HTTP routes and resolvers. `tests/` runs the library
on concrete values.
