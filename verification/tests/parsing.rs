use kanji_quiz::files::{
    check_gen_stream, desc_file_check, list_files, read_questions, QuestionFile, ReadError,
};
use kanji_quiz::questions::{
    split_on, ParserKind, PronunciationKind, Question, QuestionMultiple, QuestionSingle,
};

fn lines(texts: &[&str]) -> Vec<String> {
    texts.iter().map(|t| String::from(*t)).collect()
}

#[test]
fn split_preserves_empty_fields() {
    let fields = split_on("a||b", '|');
    assert_eq!(fields, vec!["a".to_string(), "".to_string(), "b".to_string()]);
    let lone = split_on("", '|');
    assert_eq!(lone, vec!["".to_string()]);
}

#[test]
fn single_parse_reads_all_fields() {
    let input = lines(&["K|山|さん|mountain"]);
    let (q, next) = QuestionSingle::parse(&input, 0);
    let q = q.expect("a well-formed record parses");
    assert_eq!(next, 1);
    assert_eq!(q.expr, "山");
    assert_eq!(q.pron, "さん");
    assert_eq!(q.meaning, "mountain");
    assert!(matches!(q.pron_kind, PronunciationKind::Kun));
    assert_eq!(q.pron_kind(), "kun'yomi");
}

#[test]
fn single_parse_rejects_bad_code_and_short_lines() {
    let bad_code = lines(&["X|山|さん|mountain"]);
    assert!(QuestionSingle::parse(&bad_code, 0).0.is_none());
    let short = lines(&["K|山|さん"]);
    assert!(QuestionSingle::parse(&short, 0).0.is_none());
    let empty = lines(&[""]);
    assert!(QuestionSingle::parse(&empty, 0).0.is_none());
}

#[test]
fn single_parse_ignores_extra_fields() {
    let input = lines(&["O|字|じ|character|extra|more"]);
    let q = QuestionSingle::parse(&input, 0).0.expect("extra fields are ignored");
    assert_eq!(q.meaning, "character");
    assert_eq!(q.pron_kind(), "on'yomi");
}

#[test]
fn round_trip_serialization() {
    let input = lines(&["O|学|がく|study"]);
    let q = QuestionSingle::parse(&input, 0).0.expect("parses");
    let line = q.to_line();
    assert_eq!(line, "O|学|がく|study");
    let again = QuestionSingle::parse(&lines(&[line.as_str()]), 0).0.expect("reparses");
    assert_eq!(again.expr, q.expr);
    assert_eq!(again.pron, q.pron);
    assert_eq!(again.meaning, q.meaning);
    assert!(matches!(again.pron_kind, PronunciationKind::On));
}

#[test]
fn multiple_parse_needs_fifth_field() {
    let good = lines(&["K|日本|にほん|Japan|sun and origin"]);
    let (q, next) = QuestionMultiple::parse(&good, 0);
    let q = q.expect("five fields parse");
    assert_eq!(next, 1);
    assert_eq!(q.inner.expr, "日本");
    assert_eq!(q.composition, "sun and origin");
    let four = lines(&["K|日本|にほん|Japan"]);
    assert!(QuestionMultiple::parse(&four, 0).0.is_none());
}

#[test]
fn dispatcher_uses_generator_strategy_for_gb_files() {
    // the trailing plain record line is consumed by the generator parser
    // and yields no question: the strategy never switches back
    let input = lines(&["GB", "o", "K|山|さん|mountain", "GE", "K|川|かわ|river"]);
    let qs = read_questions(&input, ParserKind::Single).expect("non-empty file");
    assert_eq!(qs.len(), 1);
    assert!(matches!(qs[0], Question::Generated(_)));
}

#[test]
fn dispatcher_never_uses_generator_for_plain_files() {
    let input = lines(&["K|山|さん|mountain", "GB", "K|川|かわ|river"]);
    let qs = read_questions(&input, ParserKind::Single).expect("non-empty file");
    assert_eq!(qs.len(), 2);
    assert!(qs.iter().all(|q| matches!(q, Question::Single(_))));
}

#[test]
fn dispatcher_skips_malformed_plain_records() {
    let input = lines(&["K|山|さん|mountain", "not a record", "O|字|じ|character"]);
    let qs = read_questions(&input, ParserKind::Single).expect("non-empty file");
    assert_eq!(qs.len(), 2);
}

#[test]
fn empty_file_is_an_error() {
    let input: Vec<String> = Vec::new();
    let r = read_questions(&input, ParserKind::Single);
    assert!(matches!(r, Err(ReadError::EmptyFile)));
}

#[test]
fn tolerant_parsing_drops_one_malformed_line() {
    let input = lines(&["GB", "o", "K|一|いち|one", "garbage line", "K|二|に|two", "GE"]);
    let qs = read_questions(&input, ParserKind::Single).expect("non-empty file");
    assert_eq!(qs.len(), 1);
    match &qs[0] {
        Question::Generated(g) => {
            assert_eq!(g.shards.len(), 1);
            assert_eq!(g.shards[0].expr_count(), 2);
            assert_eq!(g.shards[0].expressions[0].expr, "一");
            assert_eq!(g.shards[0].expressions[1].expr, "二");
        },
        _ => panic!("a generator block yields a generated question"),
    }
}

#[test]
fn lenient_end_of_input_accepts_open_block() {
    let input = lines(&["GB", "m", "K|三|さん|three"]);
    let qs = read_questions(&input, ParserKind::Single).expect("non-empty file");
    assert_eq!(qs.len(), 1);
    match &qs[0] {
        Question::Generated(g) => {
            assert_eq!(g.shards.len(), 1);
            assert_eq!(g.shards[0].expr_count(), 1);
        },
        _ => panic!("a generator block yields a generated question"),
    }
}

#[test]
fn shard_with_no_facts_is_legal_at_parse_time() {
    let input = lines(&["GB", "o", "f", "K|四|し|four", "GE"]);
    let qs = read_questions(&input, ParserKind::Single).expect("non-empty file");
    match &qs[0] {
        Question::Generated(g) => {
            assert_eq!(g.shards.len(), 2);
            assert_eq!(g.shards[0].expr_count(), 0);
            assert_eq!(g.shards[1].expr_count(), 1);
        },
        _ => panic!("a generator block yields a generated question"),
    }
}

#[test]
fn gen_stream_check_accepts_well_formed_blocks() {
    let good = lines(&["GB", "o", "K|一|いち|one", "GE", "GB", "f", "GE"]);
    assert!(check_gen_stream(&good));
    let plain = lines(&["K|一|いち|one"]);
    assert!(check_gen_stream(&plain));
    let open_ended = lines(&["GB", "m", "K|二|に|two"]);
    assert!(check_gen_stream(&open_ended));
}

#[test]
fn gen_stream_check_rejects_facts_outside_shards() {
    let orphan = lines(&["GB", "K|一|いち|one", "o", "GE"]);
    assert!(!check_gen_stream(&orphan));
    let second_block_orphan = lines(&["GB", "o", "GE", "GB", "K|二|に|two", "GE"]);
    assert!(!check_gen_stream(&second_block_orphan));
}

#[test]
fn manifest_pairs_descriptions_by_position() {
    let names = vec![
        String::from("a.txt"),
        String::from("b.txt"),
        String::from("c.txt"),
        String::from("_desc.txt"),
    ];
    let descs = vec![String::from("first"), String::from("second")];
    let listing = list_files(&names, &descs).expect("manifest is present");
    assert_eq!(listing.len(), 3);
    assert_eq!(listing[0].filename().unwrap(), "a.txt");
    assert_eq!(listing[1].filename().unwrap(), "b.txt");
    assert_eq!(listing[2].filename().unwrap(), "c.txt");
    assert_eq!(listing[0].desc().clone().unwrap(), "first");
    assert_eq!(listing[1].desc().clone().unwrap(), "second");
    assert!(listing[2].desc().is_none());
}

#[test]
fn missing_manifest_lists_nothing() {
    let names = vec![String::from("a.txt"), String::from("b.txt")];
    let descs = vec![String::from("first")];
    assert!(list_files(&names, &descs).is_none());
    let empty: Vec<String> = Vec::new();
    assert!(list_files(&empty, &descs).is_none());
}

#[test]
fn desc_file_check_recognizes_the_manifest() {
    assert_eq!(desc_file_check(String::from("_desc.txt")), Some(String::from("_desc.txt")));
    assert_eq!(desc_file_check(String::from("notes.txt")), None);
}

#[test]
fn question_file_from_line_pairs_name_and_description() {
    let name = String::from("kanji1.txt");
    let qf = QuestionFile::from_line((String::from("basic kanji"), &name));
    assert_eq!(qf.filename().unwrap(), "kanji1.txt");
    assert_eq!(qf.desc().clone().unwrap(), "basic kanji");
}
