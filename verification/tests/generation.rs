use kanji_quiz::files::read_questions;
use kanji_quiz::questions::{
    ParserKind, PronunciationKind, Question, QuestionGenerated, QuestionGeneratorShard,
    QuestionSingle, ShardKind,
};
use rand::SeedableRng;

fn lines(texts: &[&str]) -> Vec<String> {
    texts.iter().map(|t| String::from(*t)).collect()
}

fn fact(expr: &str, pron: &str, meaning: &str) -> QuestionSingle {
    let input = lines(&[&format!("K|{}|{}|{}", expr, pron, meaning)]);
    QuestionSingle::parse(&input, 0).0.expect("test fact parses")
}

fn shard(kind: ShardKind, facts: Vec<QuestionSingle>) -> QuestionGeneratorShard {
    QuestionGeneratorShard { expressions: facts, kind }
}

#[test]
fn end_to_end_single_obligatory_block() {
    let input = lines(&["GB", "o", "K|山|さん|mountain", "GE"]);
    let qs = read_questions(&input, ParserKind::Single).expect("non-empty file");
    assert_eq!(qs.len(), 1);
    let g = match &qs[0] {
        Question::Generated(g) => g,
        _ => panic!("a generator block yields a generated question"),
    };
    assert_eq!(g.shards.len(), 1);
    assert!(matches!(g.shards[0].kind, ShardKind::Obligatory));
    assert!(matches!(g.shards[0].expressions[0].pron_kind, PronunciationKind::Kun));
    // the only admissible pick is the single fact, whatever the rng does
    let mut rng = rand::rngs::StdRng::seed_from_u64(7);
    let outcome = qs[0].ask(&mut rng);
    assert_eq!(outcome.prompt, "山");
    assert_eq!(outcome.pronunciation, "さん");
    assert_eq!(outcome.meaning, "mountain");
    assert!(outcome.kind_label.is_none());
    assert!(outcome.composition.is_none());
}

#[test]
fn generated_ask_joins_parts() {
    let g = QuestionGenerated {
        shards: vec![
            shard(ShardKind::Obligatory, vec![fact("火", "か", "fire")]),
            shard(ShardKind::Obligatory, vec![fact("山", "ざん", "mountain")]),
        ],
    };
    let mut rng = rand::rngs::StdRng::seed_from_u64(1);
    let outcome = g.ask(&mut rng);
    assert_eq!(outcome.prompt, "火山");
    assert_eq!(outcome.pronunciation, "か-ざん");
    assert_eq!(outcome.meaning, "firemountain");
}

#[test]
fn multi_run_grouping_emits_one_per_run() {
    let g = QuestionGenerated {
        shards: vec![
            shard(ShardKind::Multi, vec![fact("一", "いち", "one")]),
            shard(ShardKind::Multi, vec![fact("二", "に", "two")]),
            shard(ShardKind::Obligatory, vec![fact("三", "さん", "three")]),
            shard(ShardKind::Multi, vec![fact("四", "し", "four")]),
        ],
    };
    let mut rng = rand::rngs::StdRng::seed_from_u64(99);
    let mut saw_one = false;
    let mut saw_two = false;
    for _ in 0..2000 {
        let picked = g.generate_sequence(&mut rng);
        assert_eq!(picked.len(), 3);
        let first = picked[0].expr.as_str();
        assert!(first == "一" || first == "二");
        if first == "一" {
            saw_one = true;
        }
        if first == "二" {
            saw_two = true;
        }
        assert_eq!(picked[1].expr, "三");
        assert_eq!(picked[2].expr, "四");
    }
    // both alternatives of the leading run are actually reachable
    assert!(saw_one && saw_two);
}

#[test]
fn invalid_shards_contribute_nothing() {
    let g = QuestionGenerated {
        shards: vec![
            shard(ShardKind::Invalid, vec![]),
            shard(ShardKind::Obligatory, vec![fact("木", "き", "tree")]),
        ],
    };
    let mut rng = rand::rngs::StdRng::seed_from_u64(3);
    for _ in 0..50 {
        let picked = g.generate_sequence(&mut rng);
        assert_eq!(picked.len(), 1);
        assert_eq!(picked[0].expr, "木");
    }
}

#[test]
fn facultative_inclusion_is_a_fair_coin() {
    let g = QuestionGenerated {
        shards: vec![shard(ShardKind::Facultative, vec![fact("水", "すい", "water")])],
    };
    let mut rng = rand::rngs::StdRng::seed_from_u64(2024);
    let total = 10000;
    let mut included = 0usize;
    for _ in 0..total {
        let picked = g.generate_sequence(&mut rng);
        assert!(picked.len() <= 1);
        if picked.len() == 1 {
            included += 1;
        }
    }
    let fraction = included as f64 / total as f64;
    assert!(fraction > 0.48 && fraction < 0.52, "fraction was {}", fraction);
}

#[test]
fn obligatory_pick_is_uniformly_drawn() {
    let g = QuestionGenerated {
        shards: vec![
            shard(
                ShardKind::Obligatory,
                vec![fact("金", "きん", "gold"), fact("土", "ど", "earth")],
            ),
        ],
    };
    let mut rng = rand::rngs::StdRng::seed_from_u64(5);
    let mut golds = 0usize;
    for _ in 0..2000 {
        let picked = g.generate_sequence(&mut rng);
        assert_eq!(picked.len(), 1);
        if picked[0].expr == "金" {
            golds += 1;
        }
    }
    // both facts are drawn, neither overwhelmingly
    assert!(golds > 700 && golds < 1300, "golds was {}", golds);
}
