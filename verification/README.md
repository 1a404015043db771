# seocrawler

The verified core of a desktop SEO crawler. `src/` is a Verus library; `app/`
is the Tauri front end that performs the network requests, runs the task
pool and writes files; what is fetched, what is made of each response and
when a run ends are decided by the library.

Library modules:

- `robots`, `delay`: robots.txt parsing (the `User-agent: *` group, comments,
  Crawl-delay in milliseconds) and longest-prefix matching of paths.
- `parse`, `html`: page analysis (title, meta tags, headings, canonical link,
  visible word count, links, images) over documents parsed by `scraper`.
- `page`: status texts, indexability, page results and the redirect walk.
- `frontier`: crawl scheduling (each URL once, page budget, depth limit).
- `resources`: link and image checks, one per URL.
- `techdetect`: technology fingerprints from headers and HTML.
- `sitemap`, `hosting`, `export`, `crawl`, `types`: sitemaps, address lists
  and hosting organisations, report rows, run decisions, shared data.
- `text`, `weburl`: character helpers and URLs (through the `url` crate).

Page and resource records carry exactly the fields of `src/types.rs`;
checks such as HSTS, redirect chains, accessibility audits or structured
data are not part of them.
