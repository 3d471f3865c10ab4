# shousetsu-dump

Web novel dumping tool for https://syosetu.com/ (including `novel18.syosetu.com`)
and https://kakuyomu.jp/, written as a Verus-verified library with a thin program
around it.

- `src/` is the library, verified with Verus:
  - `utils`: exact splitting of text on a character, trimming and other text
    helpers, the reusable URL buffer and the download pacer, which counts
    chapters and works out what is left of the interval from the elapsed
    time;
  - `novel`: novel ids and their URLs, chapters, titles, chapter lines and
    error messages; `novel::html` reaches parsed HTML through `scraper`, and
    each element it hands out carries the page text and the steps that
    reached it, so that `novel::kakuyomu` and `novel::syosetu` state what
    they read of a page in terms of that page's text;
  - `http`: request errors, their messages, and following redirects up to
    a limit, one answer at a time;
  - `download`: the answers to the interactive prompts, the decisions of a
    download (retrying the index, a dry run, the output file, which chapters
    to fetch, passing over a chapter that cannot be downloaded), and the
    Markdown that the novel is written as;
  - `stdio`: the standard stream handles.
- `app/` is the program: command line, prompts, HTTP requests, JSON decoding,
  file output and pauses between downloads. It runs the download as the
  library decides it.
- `tests/` runs the library on concrete values.

The program is run as `shousetsu-dump [OPTIONS] <novel>`, or without arguments
to be asked for each setting. Unless `-o` names another file, the novel is
written to `./<title>.md`. To turn the output into an EPUB:

```
pandoc --metadata title="<novel title>" --embed-resources --standalone --shift-heading-level-by=-1 --from=gfm -o novel.epub "./<out>.md"
```
