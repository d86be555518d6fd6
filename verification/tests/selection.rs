use kanji_quiz::questions::{
    Question, QuestionGenerated, QuestionGeneratorShard, QuestionMultiple, QuestionSingle,
    ShardKind,
};
use kanji_quiz::quiz::{pick_question, QuestionType};
use kanji_quiz::utils::{get_line_indices, get_line_number};
use rand::SeedableRng;

fn fact(expr: &str, pron: &str, meaning: &str) -> QuestionSingle {
    let line = vec![format!("K|{}|{}|{}", expr, pron, meaning)];
    QuestionSingle::parse(&line, 0).0.expect("test fact parses")
}

fn generated(shard_count: usize) -> QuestionGenerated {
    let mut shards = Vec::new();
    for _ in 0..shard_count {
        shards.push(QuestionGeneratorShard {
            expressions: vec![fact("日", "にち", "day")],
            kind: ShardKind::Obligatory,
        });
    }
    QuestionGenerated { shards }
}

#[test]
fn weight_formula_per_variant() {
    let single = Question::Single(fact("日", "にち", "day"));
    assert_eq!(single.weight(), 1);
    let multiple = Question::Multiple(QuestionMultiple {
        inner: fact("日本", "にほん", "Japan"),
        composition: String::from("sun and origin"),
    });
    assert_eq!(multiple.weight(), 1);
    let three_shards = Question::Generated(generated(3));
    assert_eq!(three_shards.weight(), 6);
    let none = Question::Generated(generated(0));
    assert_eq!(none.weight(), 0);
}

#[test]
fn weighted_selection_follows_the_weights() {
    // weights 2 and 6: the heavier question should be drawn about 75% of
    // the time
    let pool = vec![Question::Generated(generated(1)), Question::Generated(generated(3))];
    let mut rng = rand::rngs::StdRng::seed_from_u64(4242);
    let total = 10000;
    let mut heavy = 0usize;
    for _ in 0..total {
        let idx = pick_question(&pool, &mut rng);
        assert!(idx < pool.len());
        if idx == 1 {
            heavy += 1;
        }
    }
    let fraction = heavy as f64 / total as f64;
    assert!(fraction > 0.73 && fraction < 0.77, "fraction was {}", fraction);
}

#[test]
fn zero_weight_questions_are_never_drawn() {
    let pool = vec![Question::Generated(generated(0)), Question::Generated(generated(2))];
    let mut rng = rand::rngs::StdRng::seed_from_u64(9);
    for _ in 0..200 {
        assert_eq!(pick_question(&pool, &mut rng), 1);
    }
}

#[test]
fn single_and_multiple_asks_reveal_their_fields() {
    let single = Question::Single(fact("川", "かわ", "river"));
    let mut rng = rand::rngs::StdRng::seed_from_u64(0);
    let outcome = single.ask(&mut rng);
    assert_eq!(outcome.prompt, "川");
    assert_eq!(outcome.pronunciation, "かわ");
    assert_eq!(outcome.meaning, "river");
    assert_eq!(outcome.kind_label.unwrap(), "kun'yomi");
    assert!(outcome.composition.is_none());

    let multiple = Question::Multiple(QuestionMultiple {
        inner: fact("火山", "かざん", "volcano"),
        composition: String::from("fire and mountain"),
    });
    let outcome = multiple.ask(&mut rng);
    assert_eq!(outcome.prompt, "火山");
    assert_eq!(outcome.composition.unwrap(), "fire and mountain");
}

#[test]
fn question_type_from_index_is_bounds_checked() {
    assert_eq!(QuestionType::from_index(1), Some(QuestionType::SingleWord));
    assert_eq!(QuestionType::from_index(2), Some(QuestionType::Multi));
    assert_eq!(QuestionType::from_index(3), Some(QuestionType::Both));
    assert_eq!(QuestionType::from_index(0), None);
    assert_eq!(QuestionType::from_index(4), None);
}

#[test]
fn question_type_selects_category_roots() {
    assert!(QuestionType::SingleWord.includes_single());
    assert!(!QuestionType::SingleWord.includes_multiple());
    assert!(!QuestionType::Multi.includes_single());
    assert!(QuestionType::Multi.includes_multiple());
    assert!(QuestionType::Both.includes_single());
    assert!(QuestionType::Both.includes_multiple());
}

#[test]
fn line_numbers_parse_like_decimal_integers() {
    assert_eq!(get_line_number(&String::from("12")), Some(12));
    assert_eq!(get_line_number(&String::from("+7")), Some(7));
    assert_eq!(get_line_number(&String::from("0")), Some(0));
    assert_eq!(get_line_number(&String::from("")), None);
    assert_eq!(get_line_number(&String::from("+")), None);
    assert_eq!(get_line_number(&String::from("x2")), None);
    assert_eq!(get_line_number(&String::from("12 ")), None);
    assert_eq!(get_line_number(&String::from("999999999999999999999999999999")), None);
}

#[test]
fn line_indices_skip_what_is_no_number() {
    assert_eq!(get_line_indices(&String::from("1/2/x/4")), vec![1, 2, 4]);
    assert_eq!(get_line_indices(&String::from("3")), vec![3]);
    assert_eq!(get_line_indices(&String::from("")), Vec::<usize>::new());
    assert_eq!(get_line_indices(&String::from("a/b")), Vec::<usize>::new());
}
