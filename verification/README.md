# phy6_token_saver

Token-efficient document retrieval: documents are split into overlapping chunks
of words, each chunk gets word statistics, and searches return only the chunks
that rank highest.

The library under `src/` is verified with Verus:

- `text`: white space, words, lines, trimming, UTF-8 byte lengths.
- `chunking`: windows of 180 words, 40 shared between neighbours.
- `lexicon`: stop words, long and technical words, distinct words.
- `document`: a text's pages (lines), outline (headings) and planned chunks;
  the name a file is ingested under.
- `numbers`: decimal and hexadecimal numerals, and reading decimals back.
- `json`: JSON values as the library holds them; reading and writing JSON text
  with `serde_json`.
- `store`: the document store (ingest, clear, status, where a search goes,
  expiry times, and keeping and restoring its state as JSON text).
- `rank`: the first results of a stable sort by score, highest first.
- `mcp`: the MCP server's logic: reading a JSON-RPC frame into a request, what it
  does with each request, the tool definitions, and its replies as JSON.
- `cli`: the commands of the command line and the physics mode setting.
- `laws`: properties of the library as a whole, proved.

`app/main.rs` is the program around it: the command line, the MCP stdio loop
(reading a line, performing the planned action, writing the reply line), reading
and writing the state file, settings from the
environment (`Phy6_Mode`, `Phy6_Thermal_K`, `Phy6_Entropy_Temp`,
`Phy6_TTL_Minutes`, `Phy6_State_File`), and the floating-point physics models that
score chunks.
