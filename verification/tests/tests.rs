use shousetsu_dump::novel;
use shousetsu_dump::utils::StrExt;

#[test]
fn should_split_exact() {
    let kakuyomu_url = "https://kakuyomu.jp/works/<id>";
    let syosetu_url = "https://ncode.syosetu.com/<id>";

    let result = kakuyomu_url.split_exact_by::<5>('/').expect("to split");
    assert_eq!(result, ["https:", "", "kakuyomu.jp", "works", "<id>"]);
    let result = syosetu_url.split_exact_by::<4>('/').expect("to split");
    assert_eq!(result, ["https:", "", "ncode.syosetu.com", "<id>"]);
    let result = syosetu_url.split_exact_by::<3>('/').expect("to split");
    assert_eq!(result, ["https:", "", "ncode.syosetu.com/<id>"]);
    assert!(syosetu_url.split_exact_by::<5>('/').is_none());
}

#[test]
fn should_rsplit_exact() {
    let kakuyomu_url = "https://kakuyomu.jp/works/<id>";
    let syosetu_url = "https://ncode.syosetu.com/<id>";

    let result = kakuyomu_url.rsplit_exact_by::<5>('/').expect("to split");
    assert_eq!(result, ["<id>", "works", "kakuyomu.jp", "", "https:"]);

    let result = syosetu_url.rsplit_exact_by::<4>('/').expect("to split");
    assert_eq!(result, ["<id>", "ncode.syosetu.com", "", "https:"]);
    let result = syosetu_url.rsplit_exact_by::<3>('/').expect("to split");
    assert_eq!(result, ["<id>", "ncode.syosetu.com", "https:/"]);
    let result = syosetu_url.rsplit_exact_by::<2>('/').expect("to split");
    assert_eq!(result, ["<id>", "https://ncode.syosetu.com"]);

    let result = kakuyomu_url.rsplit_exact_by::<3>('/').expect("to split");
    assert_eq!(result, ["<id>", "works", "https://kakuyomu.jp"]);
    let result = kakuyomu_url.rsplit_exact_by::<2>('/').expect("to split");
    assert_eq!(result, ["<id>", "https://kakuyomu.jp/works"]);

    assert!(syosetu_url.rsplit_exact_by::<5>('/').is_none());
}

#[test]
fn should_parse_novel_id() {
    let kakuyomu_url = "https://kakuyomu.jp/works/1177354054935164320";
    let syosetu_url = "https://ncode.syosetu.com/n8856gp/";
    let r18syosetu_url = "https://novel18.syosetu.com/n9598df/";

    let id = novel::Id::try_parse(kakuyomu_url).expect("parse kakuyomu_url");
    assert_eq!(id.kind(), novel::BackendKind::Kakuyomu);
    assert!(id.kind().is_kakuyomu());
    assert_eq!(id.id(), "1177354054935164320");

    let id = novel::Id::try_parse(syosetu_url).expect("parse syosetu_url");
    assert_eq!(id.kind(), novel::BackendKind::Syosetu);
    assert!(id.kind().is_syosetu());
    assert_eq!(id.id(), "n8856gp");

    let id = novel::Id::try_parse(r18syosetu_url).expect("parse r18syosetu_url");
    assert_eq!(id.kind(), novel::BackendKind::R18Syosetu);
    assert!(id.kind().is_syosetu());
    assert_eq!(id.id(), "n9598df");
}

#[test]
fn should_parse_kakuyomu_title() {
    const DATA: &str = r#"超難関ダンジョンで10万年修行した結果、世界最強に～最弱無能の下剋上～（最弱で迫害までされていたけど、超難関迷宮で10万年修行した結果、強くなりすぎて敵がいなくなった）（力水） - カクヨム"#;

    let title = novel::Title::new_kakuyomu(DATA);
    assert_eq!(title.name, "超難関ダンジョンで10万年修行した結果、世界最強に～最弱無能の下剋上～（最弱で迫害までされていたけど、超難関迷宮で10万年修行した結果、強くなりすぎて敵がいなくなった）");
    assert_eq!(title.author, Some("力水"));
}
