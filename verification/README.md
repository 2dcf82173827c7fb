# databend_query

A verified library for three pieces of a SQL query engine:

- `token`, `ast`, `util`, `expr`, `query`: a parser from a token sequence to the syntax tree of
  a `SELECT` query (set operations, `FROM` lists with joins, subqueries, table functions and
  time travel, `WHERE`, `GROUP BY`, `HAVING`, `ORDER BY`, `LIMIT`, `OFFSET`, `FORMAT`). Each rule
  is a spec function over the tokens; each executable parser is proved to compute it.
- `balance`: parentheses over token ranges; what the rules consume is balanced, and a joined
  table reference holds one `JOIN` outside parentheses per join.
- `block`, `merge_block`: blocks of columns, and a processor that projects the blocks of its
  input and of a channel to one schema and pushes them on; its event decisions are a function
  of its state and its ports.
- `credits`: the `system.credits` table, whose rows come from comma terminated lists.

`app/` holds what awaits the channel and what reads the lists that the build records.
