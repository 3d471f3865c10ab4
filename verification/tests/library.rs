use shousetsu_dump::download::{
    answer_from, answer_interval, answer_novel, answer_out, answer_rate, answer_to,
    chapter_window, construct_file_path, download_step, DownloadAction, DownloadEvent,
    DownloadPlan, DownloadState, decimal_string, last_chapter, pandoc_hint, retry_fetch,
    write_novel_header, ChapterWriter, FromAnswer, NovelAnswer, ToAnswer,
};
use shousetsu_dump::http::{HttpError, RedirectStep, Redirects, MAX_REDIRECTS};
use shousetsu_dump::novel::kakuyomu::{self, find_next_data, ScriptAttrs};
use shousetsu_dump::novel::syosetu::{self, ApiResponse, ChapterIter, Info, Lookup, LookupStep, Meta};
use shousetsu_dump::novel::{BackendKind, Chapter, Id, Line, NovelError, Title};
use shousetsu_dump::stdio::{behavior, In, Out};
use shousetsu_dump::utils::{
    str_ends_with, str_eq, str_rfind_char, str_starts_with, str_strip_prefix, str_strip_suffix,
    trim_str, remaining_nanos, IterExt, PaceMaker, StrExt, StringBuffer,
};

fn id(text: &str) -> Id {
    Id::try_parse(text).expect("to parse")
}

#[test]
fn split_pieces_join_back_to_the_input() {
    let text = "a/b//c";
    for pieces in [text.split_exact_by::<2>('/').unwrap(), text.split_exact_by::<4>('/').unwrap()] {
        assert_eq!(pieces.join("/"), text);
    }
    let mut pieces = text.rsplit_exact_by::<3>('/').unwrap();
    assert_eq!(pieces, ["c", "", "a/b"]);
    pieces.reverse();
    assert_eq!(pieces.join("/"), text);
}

#[test]
fn split_succeeds_exactly_with_enough_separators() {
    let text = "a/b/c";
    assert!(text.split_exact_by::<3>('/').is_some());
    assert!(text.split_exact_by::<4>('/').is_none());
    assert!(text.rsplit_exact_by::<3>('/').is_some());
    assert!(text.rsplit_exact_by::<4>('/').is_none());
    assert_eq!(text.split_exact_by::<1>('/').unwrap(), ["a/b/c"]);
    assert_eq!(text.split_exact_by::<0>('/').unwrap(), Vec::<&str>::new());
    assert_eq!("".split_exact_by::<1>('/').unwrap(), [""]);
    assert!("".split_exact_by::<2>('/').is_none());
    assert_eq!("/".split_exact_by::<2>('/').unwrap(), ["", ""]);
    assert_eq!("日本/語".rsplit_exact_by::<2>('/').unwrap(), ["語", "日本"]);
}

#[test]
fn collect_exact_wants_the_exact_count() {
    assert_eq!(vec![1, 2].collect_exact::<2>(), Some(vec![1, 2]));
    assert_eq!(vec![1, 2].collect_exact::<3>(), None);
    assert_eq!(vec![1, 2].collect_exact::<1>(), None);
}

#[test]
fn text_helpers() {
    assert_eq!(trim_str(" \t\u{3000}題名\n "), "題名");
    assert_eq!(trim_str("   "), "");
    assert!(str_ends_with("abc", "bc"));
    assert!(!str_ends_with("abc", "ab"));
    assert!(str_starts_with("abc", "ab"));
    assert!(!str_starts_with("a", "ab"));
    assert_eq!(str_strip_suffix("abc/", "/"), Some("abc"));
    assert_eq!(str_strip_suffix("abc", "/"), None);
    assert_eq!(str_strip_prefix("Episode:1", "Episode:"), Some("1"));
    assert_eq!(str_rfind_char("a（b（c", '（'), Some(3));
    assert_eq!(str_rfind_char("abc", '（'), None);
    assert!(str_eq("語", "語"));
    assert!(!str_eq("a", "ab"));
}

#[test]
fn acquired_buffer_starts_empty() {
    let mut buffer = StringBuffer::new();
    {
        let mut guard = buffer.acquire();
        guard.as_mut_string().push_str("first");
        assert_eq!(guard.as_str(), "first");
        assert_eq!(guard.to_string(), "first");
    }
    let guard = buffer.acquire();
    assert_eq!(guard.as_str(), "");
}

#[test]
fn pacer_throttles_every_rate_limit_chapters() {
    let mut pacer = PaceMaker::new(3, std::time::Duration::from_secs(0));
    let mut throttled = Vec::new();
    for _ in 0..7 {
        let throttle = pacer.on_chapter_finished();
        throttled.push(throttle.is_some());
        if let Some(throttle) = throttle {
            throttle.finish(&mut pacer, std::time::Instant::now());
        }
    }
    assert_eq!(throttled, [false, false, true, false, false, true, false]);
}

#[test]
fn pacer_without_limit_never_throttles() {
    let mut pacer = PaceMaker::new(0, std::time::Duration::from_secs(1));
    for _ in 0..5 {
        assert!(pacer.on_chapter_finished().is_none());
    }
}

#[test]
fn throttle_waits_for_the_rest_of_the_interval() {
    let mut pacer = PaceMaker::new(1, std::time::Duration::from_secs(3600));
    let throttle = pacer.on_chapter_finished().expect("to throttle");
    let duration = throttle.duration().expect("interval to be left");
    assert!(duration <= std::time::Duration::from_secs(3600));
    assert!(duration > std::time::Duration::from_secs(3500));
    throttle.finish(&mut pacer, std::time::Instant::now());
}

#[test]
fn throttle_waits_what_is_left_of_the_interval() {
    let mut pacer = PaceMaker::new(2, std::time::Duration::from_secs(3));
    assert!(pacer.on_chapter_finished_after(1).is_none());
    let throttle = pacer.on_chapter_finished_after(1_000_000_001).expect("to throttle");
    assert_eq!(throttle.remaining_nanos(), Some(1_999_999_999));
    assert_eq!(throttle.duration(), Some(std::time::Duration::new(1, 999_999_999)));
    throttle.finish(&mut pacer, std::time::Instant::now());
    assert!(pacer.on_chapter_finished_after(0).is_none());
    let late = pacer.on_chapter_finished_after(3_000_000_001).expect("to throttle");
    assert_eq!(late.remaining_nanos(), None);
    assert_eq!(late.duration(), None);
    assert_eq!(remaining_nanos(5, 2), Some(3));
    assert_eq!(remaining_nanos(2, 5), None);
}

#[test]
fn pacer_rate_two_throttles_every_second_chapter() {
    let mut pacer = PaceMaker::new(2, std::time::Duration::from_secs(1));
    assert!(pacer.on_chapter_finished().is_none());
    assert!(pacer.on_chapter_finished().is_some());
    assert!(pacer.on_chapter_finished().is_none());
    assert!(pacer.on_chapter_finished().is_some());
}

#[test]
fn chapter_iteration_yields_one_to_n() {
    let mut it = ChapterIter::new(1, 3);
    let mut seen = Vec::new();
    while let Some(chapter) = it.next() {
        let mut url = String::new();
        chapter.preapre_url(&id("n1"), &mut url);
        seen.push(url);
    }
    assert_eq!(
        seen,
        ["https://ncode.syosetu.com/n1/1", "https://ncode.syosetu.com/n1/2", "https://ncode.syosetu.com/n1/3"]
    );
    assert!(it.next().is_none());
}

#[test]
fn parses_ids_of_each_site() {
    let kakuyomu = id("kakuyomu.jp/works/1177354054935164320");
    assert_eq!(kakuyomu.kind(), BackendKind::Kakuyomu);
    assert_eq!(kakuyomu.id(), "1177354054935164320");

    let bare = id("n9598df");
    assert_eq!(bare.kind(), BackendKind::Syosetu);
    assert!(!bare.kind().is_syosetu_r18());
    assert_eq!(bare.id(), "n9598df");

    let number = id("1177354054935164320/");
    assert_eq!(number.kind(), BackendKind::Kakuyomu);
    assert_eq!(number.id(), "1177354054935164320");

    let r18 = id("novel18.syosetu.com/n9598df/");
    assert!(r18.kind().is_syosetu_r18());
    assert!(!r18.kind().is_kakuyomu());

    let parsed: Id = "ncode.syosetu.com/n8856gp".parse().expect("to parse");
    assert_eq!(parsed.kind(), BackendKind::Syosetu);
    assert!("example.com/n8856gp".parse::<Id>().is_err());
}

#[test]
fn rejects_unknown_sites_and_long_ids() {
    assert!(Id::try_parse("https://example.com/works/1").is_none());
    assert!(Id::try_parse("kakuyomu.jp/works/123456789012345678901").is_none());
    assert!(Id::try_parse("kakuyomu.jp/works/12345678901234567890").is_some());
    // seven characters of three bytes each do not fit
    assert!(Id::try_parse("kakuyomu.jp/works/一二三四五六七").is_none());
    assert!(Id::try_parse("kakuyomu.jp/works/一二三四五六").is_some());
}

#[test]
fn original_url_parses_back_to_the_novel() {
    for text in ["kakuyomu.jp/works/1177354054935164320", "n8856gp", "novel18.syosetu.com/n9598df"] {
        let novel = id(text);
        let again = id(&novel.original_url());
        assert_eq!(again.kind(), novel.kind());
        assert_eq!(again.id(), novel.id());
    }
}

#[test]
fn urls_of_each_site() {
    assert_eq!(id("n8856gp").url().to_string(), "https://api.syosetu.com/novelapi/api/?out=json&ncode=n8856gp");
    assert_eq!(id("novel18.syosetu.com/n9598df").url().to_string(), "https://api.syosetu.com/novel18api/api/?out=json&ncode=n9598df");
    assert_eq!(id("123").url().to_string(), "https://kakuyomu.jp/works/123");
    assert_eq!(id("n8856gp").original_url(), "https://ncode.syosetu.com/n8856gp");
    assert_eq!(id("novel18.syosetu.com/n9598df").original_url(), "https://novel18.syosetu.com/n9598df");

    let mut out = String::from(">");
    id("123").url().write_to(&mut out);
    assert_eq!(out, ">https://kakuyomu.jp/works/123");
}

#[test]
fn chapter_urls_of_each_site() {
    let chapter = Chapter::from_id("42").unwrap();
    let mut out = String::new();
    chapter.preapre_url(&id("n8856gp"), &mut out);
    assert_eq!(out, "https://ncode.syosetu.com/n8856gp/42");
    out.clear();
    chapter.preapre_url(&id("novel18.syosetu.com/n9598df"), &mut out);
    assert_eq!(out, "https://novel18.syosetu.com/n9598df/42");
    out.clear();
    chapter.preapre_url(&id("123"), &mut out);
    assert_eq!(out, "https://kakuyomu.jp/works/123/episodes/42");
}

#[test]
fn chapters_by_number_and_by_key() {
    assert_eq!(Chapter::from_number(0).id(), "0");
    assert_eq!(Chapter::from_number(4294967295).id(), "4294967295");
    assert!(Chapter::from_id("123456789012345678901").is_none());

    assert_eq!(Chapter::from_episode_key("Episode:16816700").unwrap().unwrap().id(), "16816700");
    assert!(Chapter::from_episode_key("Work:1").is_none());
    assert_eq!(
        Chapter::from_episode_key("Episode:123456789012345678901").unwrap().unwrap_err(),
        "123456789012345678901: not a valid chapter id"
    );
}

#[test]
fn kakuyomu_titles() {
    let title = Title::new_kakuyomu("  題名（作者） - カクヨム ");
    assert_eq!(title.name, "題名");
    assert_eq!(title.author, Some("作者"));

    let title = Title::new_kakuyomu("題名 - カクヨム");
    assert_eq!(title.name, "題名");
    assert_eq!(title.author, None);

    let title = Title::new_kakuyomu("題名）");
    assert_eq!(title.name, "題名）");
    assert_eq!(title.author, None);
}

#[test]
fn finds_the_page_data_script() {
    let scripts = vec![
        ScriptAttrs { kind: Some("application/json"), id: Some("other"), text: Some("x") },
        ScriptAttrs { kind: Some("application/json"), id: Some("__NEXT_DATA__"), text: None },
        ScriptAttrs { kind: Some("application/json"), id: Some("__NEXT_DATA__"), text: Some("{}") },
        ScriptAttrs { kind: Some("application/json"), id: Some("__NEXT_DATA__"), text: Some("[]") },
    ];
    assert_eq!(find_next_data(&scripts), Some("{}"));
    assert_eq!(find_next_data(&scripts[..2].to_vec()), None);
}

const KAKUYOMU_PAGE: &str = r#"<html><head><title>題名（作者） - カクヨム</title></head><body>
<script type="application/json" id="__NEXT_DATA__">{"props":{}}</script></body></html>"#;

#[test]
fn kakuyomu_index_page() {
    let info = kakuyomu::NovelInfo::new(id("123"), KAKUYOMU_PAGE);
    assert_eq!(info.id().id(), "123");
    let title = info.title().expect("a title");
    assert_eq!(title.name, "題名");
    assert_eq!(title.author, Some("作者"));
    assert_eq!(info.next_data_json(), Some(r#"{"props":{}}"#));

    let empty = kakuyomu::NovelInfo::new(id("123"), "<html></html>");
    assert!(matches!(empty.title(), Err(NovelError::MissingTitle)));
    assert_eq!(empty.next_data_json(), None);
}

#[test]
fn kakuyomu_chapter_page() {
    let info = kakuyomu::NovelInfo::new(id("123"), KAKUYOMU_PAGE);
    let page = r#"<p class="widget-episodeTitle">第一話</p><div class="widget-episodeBody js-episode-body"><p>一行目</p><p class="blank"><br></p><p>二行目</p></div>"#;
    let content = info.extract_chapter_content(page);
    assert_eq!(content.title().unwrap(), "第一話");
    assert_eq!(
        content.lines().unwrap(),
        [Line::Paragraph("一行目".to_owned()), Line::Break, Line::Paragraph("二行目".to_owned())]
    );

    let content = info.extract_chapter_content("<p>nothing</p>");
    match content.title() {
        Err(NovelError::InvalidChapterContent(message)) => assert_eq!(message, "Cannot find .widget-episodeTitle with title"),
        _ => panic!("expected an error"),
    }
    match content.lines() {
        Err(NovelError::InvalidChapterContent(message)) => assert_eq!(message, "Cannot find .widget-episodeBody.js-episode-body with text"),
        _ => panic!("expected an error"),
    }
}

#[test]
fn kakuyomu_lines_from_parts() {
    assert_eq!(Line::from_kakuyomu_parts(Some("blank"), "x".to_owned()), Line::Break);
    assert_eq!(Line::from_kakuyomu_parts(Some("other"), "x".to_owned()), Line::Paragraph("x".to_owned()));
    assert_eq!(Line::from_kakuyomu_parts(None, "y".to_owned()), Line::Paragraph("y".to_owned()));
}

#[test]
fn kakuyomu_fetch_outcomes() {
    assert!(matches!(kakuyomu::fetch_outcome(id("1"), Ok(KAKUYOMU_PAGE.to_owned())), Ok(_)));
    assert!(matches!(kakuyomu::fetch_outcome(id("1"), Err(HttpError::StatusFailed(404))), Err(NovelError::NotFound)));
    assert!(matches!(
        kakuyomu::fetch_outcome(id("1"), Err(HttpError::StatusFailed(500))),
        Err(NovelError::Transient(HttpError::StatusFailed(500)))
    ));
}

#[test]
fn syosetu_chapters_count_up() {
    let mut chapters = ChapterIter::new(1, 3);
    assert_eq!(chapters.len(), 3);
    let mut ids = Vec::new();
    while let Some(chapter) = chapters.next() {
        ids.push(chapter.id().to_owned());
    }
    assert_eq!(ids, ["1", "2", "3"]);
    // an exhausted list reports no chapter
    assert_eq!(chapters.len(), 0);

    let mut none = ChapterIter::new(1, 0);
    assert_eq!(none.len(), 0);
    assert!(none.next().is_none());
    assert_eq!(ChapterIter::new(0, u32::MAX).len(), u32::MAX as usize);
}

fn info(chapters: u32) -> Info {
    Info {
        title: "題名".to_owned(),
        writer: "作者".to_owned(),
        chapter_count: chapters,
        updated_at: str_buf::StrBuf::from_str_checked("2025-12-09 06:13:02").unwrap(),
    }
}

fn found(step: LookupStep) -> syosetu::NovelInfo {
    match step {
        LookupStep::Found(info) => info,
        _ => panic!("expected the novel"),
    }
}

#[test]
fn syosetu_lookup_tries_the_other_site_once() {
    let lookup = Lookup::new(id("n9598df"));
    assert_eq!(lookup.url(), "https://api.syosetu.com/novelapi/api/?out=json&ncode=n9598df");
    let retry = match lookup.on_response(Ok(vec![ApiResponse::Meta(Meta::new(0))])) {
        LookupStep::Retry(next) => next,
        _ => panic!("expected a retry"),
    };
    assert_eq!(retry.url(), "https://api.syosetu.com/novel18api/api/?out=json&ncode=n9598df");
    assert!(matches!(retry.on_response(Ok(vec![])), LookupStep::Failed(NovelError::NotFound)));

    let lookup = Lookup::new(id("n9598df"));
    let novel = found(lookup.on_response(Ok(vec![ApiResponse::Meta(Meta::new(1)), ApiResponse::Info(info(5))])));
    assert_eq!(novel.id().id(), "n9598df");
    let title = novel.title().unwrap();
    assert_eq!(title.name, "題名");
    assert_eq!(title.author, Some("作者"));
    assert_eq!(novel.chapters().unwrap().len(), 5);
    assert!(novel.headers().is_empty());

    let lookup = Lookup::new(id("n9598df"));
    assert!(matches!(
        lookup.on_response(Err(HttpError::StatusFailed(503))),
        LookupStep::Failed(NovelError::Transient(HttpError::StatusFailed(503)))
    ));
}

#[test]
fn syosetu_r18_chapters_carry_the_age_cookie() {
    let lookup = Lookup::new(id("novel18.syosetu.com/n9598df"));
    let novel = found(lookup.on_response(Ok(vec![ApiResponse::Info(info(1))])));
    assert_eq!(novel.headers(), [("Cookie", "over18=yes")]);
}

#[test]
fn syosetu_chapter_page() {
    let lookup = Lookup::new(id("n9598df"));
    let novel = found(lookup.on_response(Ok(vec![ApiResponse::Info(info(1))])));
    let page = r#"<html><body><h1 class="p-novel__title">第一話</h1>
<div class="p-novel__text"><p>一行目</p><p><br></p><p>  </p><p><img src="//img.example.net/a.jpg" alt="絵"></p><div>skip</div></div>
<div class="p-novel__text"><p><img src="https://img.example.net/b.jpg"></p><p><img alt="no source"></p></div>
</body></html>"#;
    let content = novel.extract_chapter_content(page);
    assert_eq!(content.title().unwrap(), "第一話");
    assert_eq!(
        content.lines().unwrap(),
        [
            Line::ChapterDiv,
            Line::Paragraph("一行目".to_owned()),
            Line::Break,
            Line::Img("https://img.example.net/a.jpg".to_owned(), "絵".to_owned()),
            Line::ChapterDiv,
            Line::Img("https://img.example.net/b.jpg".to_owned(), String::new()),
        ]
    );

    let empty = novel.extract_chapter_content("<html></html>");
    assert_eq!(empty.lines().unwrap(), []);
    assert!(matches!(empty.title(), Err(NovelError::InvalidChapterContent(_))));
}

#[test]
fn syosetu_image_locations() {
    assert_eq!(syosetu::image_location("http://a/b.png"), "http://a/b.png");
    assert_eq!(syosetu::image_location("//a/b.png"), "https://a/b.png");
    assert_eq!(syosetu::image_location("a/b.png"), "https://a/b.png");
}

#[test]
fn request_errors() {
    assert!(matches!(HttpError::from_ureq(ureq::Error::StatusCode(404)), HttpError::StatusFailed(404)));
    assert!(matches!(HttpError::from_ureq(ureq::Error::HostNotFound), HttpError::Transport(_)));
    let json = serde_json::from_str::<u8>("x").unwrap_err();
    assert!(matches!(HttpError::from_ureq(ureq::Error::Json(json)), HttpError::Internal(_)));
    assert!(matches!(NovelError::from_http(HttpError::StatusFailed(1)), NovelError::Transient(_)));
    let json = serde_json::from_str::<u8>("x").unwrap_err();
    assert!(matches!(NovelError::from_http(HttpError::Internal(ureq::Error::Json(json))), NovelError::Internal(_)));
    assert!(matches!(
        HttpError::from_io(std::io::Error::other("x")),
        HttpError::Read(_)
    ));
    assert!(matches!(NovelError::invalid_chapter_content("x".to_owned()), NovelError::InvalidChapterContent(m) if m == "x"));
}

#[test]
fn redirect_locations() {
    fn resolve(answers: &[(Option<u16>, Option<&str>)]) -> (String, usize) {
        let mut redirects = Redirects::start("a");
        let mut asked = 0;
        loop {
            let (status, location) = answers[asked.min(answers.len() - 1)];
            asked += 1;
            match redirects.on_answer(status, location) {
                RedirectStep::Follow(next) => redirects = next,
                RedirectStep::Done(url) => return (url, asked),
            }
        }
    }
    assert_eq!(resolve(&[(Some(302), Some("b")), (Some(200), None)]), ("b".to_owned(), 2));
    assert_eq!(resolve(&[(Some(301), Some("b")), (Some(399), Some("c")), (Some(404), None)]), ("c".to_owned(), 3));
    assert_eq!(resolve(&[(Some(200), Some("b"))]), ("a".to_owned(), 1));
    assert_eq!(resolve(&[(Some(301), None)]), ("a".to_owned(), 1));
    assert_eq!(resolve(&[(None, None)]), ("a".to_owned(), 1));
    // a redirect loop stops after the limit
    assert_eq!(resolve(&[(Some(302), Some("a"))]), ("a".to_owned(), MAX_REDIRECTS + 1));
    let start = Redirects::start("x");
    assert_eq!(start.url(), "x");
}

#[test]
fn prompt_answers() {
    assert!(matches!(answer_novel("  \n"), NovelAnswer::Empty));
    assert!(matches!(answer_novel(" n8856gp \n"), NovelAnswer::Novel(id) if id.id() == "n8856gp"));
    assert!(matches!(answer_novel("example.com/x\n"), NovelAnswer::Unrecognized));

    assert!(matches!(answer_from("\n"), FromAnswer::Chapter(1)));
    assert!(matches!(answer_from(" +12 \n"), FromAnswer::Chapter(12)));
    assert!(matches!(answer_from("0"), FromAnswer::Zero));
    assert!(matches!(answer_from("-1"), FromAnswer::Invalid(_)));
    assert!(matches!(answer_from("99999999999999999999999"), FromAnswer::Invalid(_)));

    assert!(matches!(answer_to("", 3), ToAnswer::Chapter(None)));
    assert!(matches!(answer_to("4", 3), ToAnswer::Chapter(Some(4))));
    assert!(matches!(answer_to("3", 3), ToAnswer::NotAfterFrom));
    assert!(matches!(answer_to("x", 3), ToAnswer::Invalid(_)));

    assert_eq!(answer_rate(" ").unwrap(), 0);
    assert_eq!(answer_rate("65535").unwrap(), 65535);
    assert!(answer_rate("65536").is_err());
    assert_eq!(answer_interval("").unwrap(), 1);
    assert_eq!(answer_interval("30").unwrap(), 30);
    assert!(answer_interval("1s").is_err());
    assert_eq!(answer_out(" \n"), None);
    assert_eq!(answer_out(" out.md \n"), Some("out.md".to_owned()));
}

#[test]
fn only_transient_failures_are_retried() {
    assert!(retry_fetch(&NovelError::Transient(HttpError::StatusFailed(500))));
    assert!(!retry_fetch(&NovelError::NotFound));
    assert!(!retry_fetch(&NovelError::MissingChapters));
}

#[test]
fn chapter_selection() {
    assert_eq!(last_chapter(None, 10), Some(10));
    assert_eq!(last_chapter(Some(4), 10), Some(4));
    assert_eq!(last_chapter(Some(11), 10), None);

    assert_eq!(chapter_window(1, 10), (0, 10));
    assert_eq!(chapter_window(3, 5), (2, 3));
    assert_eq!(chapter_window(5, 3), (4, 0));
    let picked: Vec<usize> = (1..=10).skip(2).take(3).collect();
    assert_eq!(picked, [3, 4, 5]);
}

#[test]
fn markdown_output() {
    assert_eq!(decimal_string(0), "0");
    assert_eq!(decimal_string(1234567890), "1234567890");

    let mut out = String::new();
    write_novel_header(&mut out, "題名", "https://kakuyomu.jp/works/1");
    assert_eq!(out, "題名\n===================\nOriginal: https://kakuyomu.jp/works/1\n\n");

    let mut out = String::new();
    let mut writer = ChapterWriter::start(&mut out, 12, "第一話");
    for line in [
        Line::ChapterDiv,
        Line::Paragraph("本文".to_owned()),
        Line::Break,
        Line::ChapterDiv,
        Line::Img("https://a/b.jpg".to_owned(), "絵".to_owned()),
    ] {
        writer.write_line(&mut out, &line);
    }
    assert_eq!(
        out,
        "\n12 第一話\n-------------------\n本文\n\n<br/>\n\n\n<div class=\"ch_div\">-------</div>\n\n![絵](https://a/b.jpg)\n\n"
    );

    assert_eq!(
        pandoc_hint("題名", "n1"),
        "Pandoc command to generate EPUB:\npandoc --metadata title=\"題名\" --embed-resources --standalone --shift-heading-level-by=-1 --from=gfm -o \"n1.epub\" \"n1.md\""
    );
    assert_eq!(construct_file_path(".", "題名"), "./題名.md");
    assert_eq!(construct_file_path(".", "a.b"), "./a.b.md");
    assert_eq!(construct_file_path(".", "n8856gp"), "./n8856gp.md");
    assert_eq!(
        std::path::PathBuf::from(construct_file_path("/tmp/out", "1177354054935164320")),
        std::path::PathBuf::from("/tmp/out/1177354054935164320.md")
    );
}

#[test]
fn io_handles() {
    let mut out = Out::new(Vec::<u8>::new(), behavior::Result);
    out.inner_mut().extend_from_slice(b"x");
    let mut out = out.ignore_errors();
    assert_eq!(out.inner_mut().as_slice(), b"x");

    let mut input = In::new(std::io::Cursor::new(b"line\n".to_vec()), behavior::Result);
    assert_eq!(input.current_line(), "");
    {
        let (io, buffer) = input.start_line();
        std::io::BufRead::read_line(io, buffer).unwrap();
    }
    assert_eq!(input.current_line(), "line\n");
    let mut input = input.panic_errors();
    assert_eq!(input.current_line(), "line\n");
    let (_, buffer) = input.start_line();
    assert_eq!(buffer, "");
}

#[test]
fn download_walks_the_chapters_asked_for() {
    let plan = DownloadPlan { from: 2, to: Some(3), dry: false, out: None };
    let (state, action) =
        download_step(&plan, DownloadState::Index, DownloadEvent::IndexRead { title: "題名".to_owned(), chapters: 5 });
    assert_eq!(state, DownloadState::Chapter { position: 2, last: 3 });
    match action {
        DownloadAction::Begin { output, first } => {
            assert_eq!(output, "./題名.md");
            assert_eq!(first, Some(2));
        },
        _ => panic!("the download begins"),
    }
    let (state, action) = download_step(&plan, state, DownloadEvent::ChapterNotDownloaded);
    assert_eq!(state, DownloadState::Chapter { position: 3, last: 3 });
    assert!(matches!(action, DownloadAction::Fetch(3)));
    let (state, action) = download_step(&plan, state, DownloadEvent::ChapterWritten);
    assert_eq!(state, DownloadState::Finished);
    assert!(matches!(action, DownloadAction::Finish));
    let (state, action) = download_step(&plan, state, DownloadEvent::ChapterWritten);
    assert_eq!(state, DownloadState::Finished);
    assert!(matches!(action, DownloadAction::Nothing));
}

#[test]
fn download_stops_where_it_must() {
    let plan = DownloadPlan { from: 1, to: None, dry: false, out: Some("book.md".to_owned()) };
    let (state, action) = download_step(
        &plan,
        DownloadState::Chapter { position: 1, last: 4 },
        DownloadEvent::ChapterUnreadable(NovelError::MissingTitle),
    );
    assert_eq!(state, DownloadState::Finished);
    assert!(matches!(action, DownloadAction::Fail(NovelError::MissingTitle)));

    let (state, action) =
        download_step(&plan, DownloadState::Index, DownloadEvent::IndexRead { title: "題名".to_owned(), chapters: 2 });
    assert_eq!(state, DownloadState::Chapter { position: 1, last: 2 });
    assert!(matches!(action, DownloadAction::Begin { ref output, first: Some(1) } if output == "book.md"));

    let dry = DownloadPlan { from: 1, to: None, dry: true, out: None };
    let (state, action) =
        download_step(&dry, DownloadState::Index, DownloadEvent::IndexRead { title: "題名".to_owned(), chapters: 2 });
    assert_eq!(state, DownloadState::Finished);
    assert!(matches!(action, DownloadAction::ShowIndex));

    let beyond = DownloadPlan { from: 1, to: Some(9), dry: false, out: None };
    let (_, action) =
        download_step(&beyond, DownloadState::Index, DownloadEvent::IndexRead { title: "題名".to_owned(), chapters: 5 });
    assert!(matches!(action, DownloadAction::TooFewChapters(5)));

    let (_, action) = download_step(
        &DownloadPlan { from: 1, to: None, dry: false, out: None },
        DownloadState::Index,
        DownloadEvent::IndexRead { title: "a.b".to_owned(), chapters: 1 },
    );
    assert!(matches!(action, DownloadAction::Begin { ref output, .. } if output == "./a.b.md"));

    let backwards = DownloadPlan { from: 5, to: Some(3), dry: false, out: None };
    let (state, action) =
        download_step(&backwards, DownloadState::Index, DownloadEvent::IndexRead { title: "題名".to_owned(), chapters: 5 });
    assert_eq!(state, DownloadState::Finished);
    assert!(matches!(action, DownloadAction::Begin { first: None, .. }));

    let (state, action) = download_step(
        &plan,
        DownloadState::Index,
        DownloadEvent::IndexFailed(NovelError::Transient(HttpError::StatusFailed(500))),
    );
    assert_eq!(state, DownloadState::Index);
    assert!(matches!(action, DownloadAction::RetryIndex));
    let (state, action) =
        download_step(&plan, DownloadState::Index, DownloadEvent::IndexFailed(NovelError::NotFound));
    assert_eq!(state, DownloadState::Finished);
    assert!(matches!(action, DownloadAction::Fail(NovelError::NotFound)));
}

#[test]
fn error_messages() {
    assert_eq!(NovelError::MissingTitle.message(), "Unable to find novel's title");
    assert_eq!(NovelError::NotFound.message(), "No such novel found");
    assert_eq!(
        NovelError::Transient(HttpError::StatusFailed(404)).message(),
        "Unable to make request: Request failed with status=404"
    );
    assert_eq!(
        NovelError::invalid_chapter_content("x".to_owned()).message(),
        "Unable to parse chapter body: x"
    );
    assert_eq!(HttpError::StatusFailed(503).message(), "Request failed with status=503");
    let json = serde_json::from_str::<u8>("x").unwrap_err();
    let expected = format!("Failed to parse APOLLO_STATE: {}", json);
    assert_eq!(NovelError::InvalidKakuyomuChapters(json).message(), expected);
}

#[test]
fn ureq_errors_are_classified() {
    assert!(matches!(HttpError::from_ureq(ureq::Error::StatusCode(404)), HttpError::StatusFailed(404)));
    assert!(matches!(HttpError::from_ureq(ureq::Error::ConnectionFailed), HttpError::Transport(_)));
}

#[test]
fn kakuyomu_chapter_list_outcome() {
    assert!(matches!(kakuyomu::chapters_outcome(None), Err(NovelError::MissingChapters)));
    let error = serde_json::from_str::<u8>("not json").unwrap_err();
    assert!(matches!(
        kakuyomu::chapters_outcome(Some(Err(error))),
        Err(NovelError::InvalidKakuyomuChapters(_))
    ));
    let chapters = kakuyomu::chapters_outcome(Some(Ok(vec![Chapter::from_number(7)]))).unwrap();
    let mut url = String::new();
    chapters[0].preapre_url(&id("kakuyomu.jp/works/1"), &mut url);
    assert_eq!(url, "https://kakuyomu.jp/works/1/episodes/7");
}
