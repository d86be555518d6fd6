//! Flashcard facts and the three question variants: single-kanji records,
//! multi-kanji records with a composition field, and generative questions
//! assembled from shards.

use vstd::prelude::*;
use vstd::string::StringExecFns;
use vstd::string::StrSliceExecFns;

verus! {

/// The views of a sequence of strings.
pub open spec fn strs_view(v: Seq<String>) -> Seq<Seq<char>> {
    v.map_values(|s: String| s@)
}

/// One step of splitting: `cur` is the field being accumulated, `acc` the
/// fields already closed.
pub open spec fn split_rec(
    s: Seq<char>,
    sep: char,
    cur: Seq<char>,
    acc: Seq<Seq<char>>,
) -> Seq<Seq<char>>
    decreases s.len(),
{
    if s.len() == 0 {
        acc.push(cur)
    } else if s[0] == sep {
        split_rec(s.skip(1), sep, Seq::empty(), acc.push(cur))
    } else {
        split_rec(s.skip(1), sep, cur.push(s[0]), acc)
    }
}

/// The fields of `s` split on `sep`, empty fields preserved; the result is
/// never empty.
pub open spec fn spec_split(s: Seq<char>, sep: char) -> Seq<Seq<char>> {
    split_rec(s, sep, Seq::empty(), Seq::empty())
}

proof fn lemma_skip_one(s: Seq<char>, i: int)
    requires
        0 <= i < s.len(),
    ensures
        s.skip(i).len() == s.len() - i,
        s.skip(i)[0] == s[i],
        s.skip(i).skip(1) =~= s.skip(i + 1),
{
}

/// Splits a line on a separator character, exactly as the field format asks.
pub fn split_on(line: &str, sep: char) -> (r: Vec<String>)
    ensures
        strs_view(r@) == spec_split(line@, sep),
{
    let n = line.unicode_len();
    let mut acc: Vec<String> = Vec::new();
    let mut start: usize = 0;
    let mut i: usize = 0;
    proof {
        assert(line@.skip(0) =~= line@);
        assert(line@.subrange(0, 0) =~= Seq::<char>::empty());
        assert(strs_view(acc@) =~= Seq::<Seq<char>>::empty());
    }
    while i < n
        invariant
            0 <= start <= i <= n,
            n == line@.len(),
            spec_split(line@, sep) == split_rec(
                line@.skip(i as int),
                sep,
                line@.subrange(start as int, i as int),
                strs_view(acc@),
            ),
        decreases n - i,
    {
        let c = line.get_char(i);
        proof {
            lemma_skip_one(line@, i as int);
        }
        if c == sep {
            let piece = line.substring_char(start, i).to_owned();
            let ghost old_acc = acc@;
            acc.push(piece);
            proof {
                assert(strs_view(acc@) =~= strs_view(old_acc).push(piece@));
                assert(line@.subrange((i + 1) as int, (i + 1) as int) =~= Seq::<char>::empty());
            }
            start = i + 1;
        } else {
            proof {
                assert(line@.subrange(start as int, i as int).push(line@[i as int]) =~= line@
                    .subrange(start as int, (i + 1) as int));
            }
        }
        i = i + 1;
    }
    let piece = line.substring_char(start, n).to_owned();
    let ghost old_acc = acc@;
    acc.push(piece);
    proof {
        assert(line@.skip(n as int) =~= Seq::<char>::empty());
        assert(strs_view(acc@) =~= strs_view(old_acc).push(piece@));
    }
    acc
}

/// Reading category of a flashcard fact.
#[derive(Clone, Copy, Debug, PartialEq, Eq, Structural)]
pub enum PronunciationKind {
    Kun,
    On,
}

/// Mathematical view of one flashcard fact.
#[verifier::ext_equal]
pub struct FactView {
    pub expr: Seq<char>,
    pub pron: Seq<char>,
    pub pron_kind: PronunciationKind,
    pub meaning: Seq<char>,
}

/// One flashcard fact: an expression, its pronunciation (with kind) and its
/// meaning. All fields are non-empty after a successful parse.
#[derive(Debug)]
pub struct QuestionSingle {
    pub expr: String,
    pub pron: String,
    pub pron_kind: PronunciationKind,
    pub meaning: String,
}

impl View for QuestionSingle {
    type V = FactView;

    open spec fn view(&self) -> FactView {
        FactView {
            expr: self.expr@,
            pron: self.pron@,
            pron_kind: self.pron_kind,
            meaning: self.meaning@,
        }
    }
}

/// The human-readable label of a pronunciation kind.
pub open spec fn kind_label(k: PronunciationKind) -> Seq<char> {
    match k {
        PronunciationKind::Kun => "kun'yomi"@,
        PronunciationKind::On => "on'yomi"@,
    }
}

impl Clone for QuestionSingle {
    fn clone(&self) -> (r: Self)
        ensures
            r == *self,
    {
        QuestionSingle {
            expr: self.expr.clone(),
            pron: self.pron.clone(),
            pron_kind: self.pron_kind,
            meaning: self.meaning.clone(),
        }
    }
}

/// The single-character code that opens a record line, per kind.
pub open spec fn spec_code(k: PronunciationKind) -> Seq<char> {
    match k {
        PronunciationKind::Kun => seq!['K'],
        PronunciationKind::On => seq!['O'],
    }
}

/// The pronunciation kind encoded by a record's first field, if any.
pub open spec fn spec_kind_of_code(c: Seq<char>) -> Option<PronunciationKind> {
    if c == seq!['K'] {
        Some(PronunciationKind::Kun)
    } else if c == seq!['O'] {
        Some(PronunciationKind::On)
    } else {
        None
    }
}

/// A fact read from the fields of one record line: the first field must be a
/// recognized code, fields two to four are expression, pronunciation and
/// meaning; extra fields are ignored.
pub open spec fn spec_fact_of_fields(fields: Seq<Seq<char>>) -> Option<FactView> {
    if fields.len() < 4 {
        None
    } else {
        match spec_kind_of_code(fields[0]) {
            Some(k) => Some(
                FactView { expr: fields[1], pron: fields[2], pron_kind: k, meaning: fields[3] },
            ),
            None => None,
        }
    }
}

/// A fact read from one whole record line, split on `|`.
pub open spec fn spec_parse_fact(line: Seq<char>) -> Option<FactView> {
    spec_fact_of_fields(spec_split(line, '|'))
}

/// The record line that serializes a fact.
pub open spec fn spec_fact_line(f: FactView) -> Seq<char> {
    spec_code(f.pron_kind) + seq!['|'] + f.expr + seq!['|'] + f.pron + seq!['|'] + f.meaning
}

/// No character of `s` is `sep`.
pub open spec fn sep_free(s: Seq<char>, sep: char) -> bool {
    forall|i: int| 0 <= i < s.len() ==> s[i] != sep
}

proof fn lemma_split_rec_no_sep(s: Seq<char>, tail: Seq<char>, sep: char, cur: Seq<char>, acc: Seq<
    Seq<char>,
>)
    requires
        sep_free(s, sep),
    ensures
        split_rec(s + tail, sep, cur, acc) == split_rec(tail, sep, cur + s, acc),
    decreases s.len(),
{
    if s.len() == 0 {
        assert(s + tail =~= tail);
        assert(cur + s =~= cur);
    } else {
        assert((s + tail).len() > 0);
        assert((s + tail)[0] == s[0]);
        assert((s + tail).skip(1) =~= s.skip(1) + tail);
        assert(sep_free(s.skip(1), sep));
        lemma_split_rec_no_sep(s.skip(1), tail, sep, cur.push(s[0]), acc);
        assert(cur.push(s[0]) + s.skip(1) =~= cur + s);
    }
}

proof fn lemma_split_rec_sep(tail: Seq<char>, sep: char, cur: Seq<char>, acc: Seq<Seq<char>>)
    ensures
        split_rec(seq![sep] + tail, sep, cur, acc) == split_rec(
            tail,
            sep,
            Seq::empty(),
            acc.push(cur),
        ),
{
    assert((seq![sep] + tail)[0] == sep);
    assert((seq![sep] + tail).skip(1) =~= tail);
}

/// Round-trip law: a fact whose fields are non-empty and free of the field
/// separator serializes to a record line that parses back to the same fact.
pub proof fn lemma_round_trip(f: FactView)
    requires
        f.expr.len() > 0,
        f.pron.len() > 0,
        f.meaning.len() > 0,
        sep_free(f.expr, '|'),
        sep_free(f.pron, '|'),
        sep_free(f.meaning, '|'),
    ensures
        spec_parse_fact(spec_fact_line(f)) == Some(f),
{
    let code = spec_code(f.pron_kind);
    let line = spec_fact_line(f);
    let bar = seq!['|'];
    let r1 = bar + f.expr + bar + f.pron + bar + f.meaning;
    let r2 = f.expr + bar + f.pron + bar + f.meaning;
    let r3 = bar + f.pron + bar + f.meaning;
    let r4 = f.pron + bar + f.meaning;
    let r5 = bar + f.meaning;
    let empty_f = Seq::<char>::empty();
    let empty_a = Seq::<Seq<char>>::empty();
    assert(sep_free(code, '|'));
    assert(line =~= code + r1);
    lemma_split_rec_no_sep(code, r1, '|', empty_f, empty_a);
    assert(empty_f + code =~= code);
    assert(r1 =~= bar + r2);
    lemma_split_rec_sep(r2, '|', code, empty_a);
    assert(r2 =~= f.expr + r3);
    lemma_split_rec_no_sep(f.expr, r3, '|', empty_f, empty_a.push(code));
    assert(empty_f + f.expr =~= f.expr);
    assert(r3 =~= bar + r4);
    lemma_split_rec_sep(r4, '|', f.expr, empty_a.push(code));
    assert(r4 =~= f.pron + r5);
    lemma_split_rec_no_sep(f.pron, r5, '|', empty_f, empty_a.push(code).push(f.expr));
    assert(empty_f + f.pron =~= f.pron);
    assert(r5 =~= bar + f.meaning);
    lemma_split_rec_sep(f.meaning, '|', f.pron, empty_a.push(code).push(f.expr));
    assert(f.meaning =~= f.meaning + empty_f);
    lemma_split_rec_no_sep(
        f.meaning,
        empty_f,
        '|',
        empty_f,
        empty_a.push(code).push(f.expr).push(f.pron),
    );
    assert(empty_f + f.meaning =~= f.meaning);
    let fields = empty_a.push(code).push(f.expr).push(f.pron).push(f.meaning);
    assert(spec_split(line, '|') == fields);
    assert(fields.len() == 4);
    assert(fields[0] == code);
    match f.pron_kind {
        PronunciationKind::Kun => {
            assert(spec_kind_of_code(code) == Some(PronunciationKind::Kun));
        },
        PronunciationKind::On => {
            assert(code != seq!['K']) by {
                assert(code[0] == 'O');
                assert(seq!['K'][0] == 'K');
            }
            assert(spec_kind_of_code(code) == Some(PronunciationKind::On));
        },
    }
    assert(spec_fact_of_fields(fields) matches Some(g) && g =~= f);
}

impl QuestionSingle {
    /// Reads one fact from the already-split fields of a record line.
    pub fn single_from_iter(fields: &Vec<String>) -> (r: Option<QuestionSingle>)
        ensures
            (r matches Some(q) ==> spec_fact_of_fields(strs_view(fields@)) == Some(q@)),
            (r is None ==> spec_fact_of_fields(strs_view(fields@)) is None),
    {
        proof {
            reveal_strlit("K");
            reveal_strlit("O");
            assert("K"@ =~= seq!['K']);
            assert("O"@ =~= seq!['O']);
        }
        if fields.len() < 4 {
            return None;
        }
        let k_code = String::from_str("K");
        let o_code = String::from_str("O");
        let pron_kind = if fields[0] == k_code {
            PronunciationKind::Kun
        } else if fields[0] == o_code {
            PronunciationKind::On
        } else {
            return None;
        };
        let ret = QuestionSingle {
            expr: fields[1].clone(),
            pron_kind,
            pron: fields[2].clone(),
            meaning: fields[3].clone(),
        };
        Some(ret)
    }

    /// Serializes the fact back to its record line.
    pub fn to_line(&self) -> (r: String)
        ensures
            r@ == spec_fact_line(self@),
    {
        proof {
            reveal_strlit("K");
            reveal_strlit("O");
            reveal_strlit("|");
            assert("K"@ =~= seq!['K']);
            assert("O"@ =~= seq!['O']);
            assert("|"@ =~= seq!['|']);
        }
        let mut s = match self.pron_kind {
            PronunciationKind::Kun => String::from_str("K"),
            PronunciationKind::On => String::from_str("O"),
        };
        s.append("|");
        s.append(self.expr.as_str());
        s.append("|");
        s.append(self.pron.as_str());
        s.append("|");
        s.append(self.meaning.as_str());
        proof {
            assert(s@ =~= spec_fact_line(self@));
        }
        s
    }

    /// Reads one fact from the line at `pos`, consuming exactly that line.
    pub fn parse(lines: &Vec<String>, pos: usize) -> (r: (Option<QuestionSingle>, usize))
        ensures
            pos < lines@.len() ==> {
                &&& r.1 == pos + 1
                &&& (r.0 matches Some(q) ==> spec_parse_fact(lines@[pos as int]@) == Some(q@))
                &&& (r.0 is None ==> spec_parse_fact(lines@[pos as int]@) is None)
            },
            pos >= lines@.len() ==> r.0 is None && r.1 == pos,
    {
        if pos >= lines.len() {
            return (None, pos);
        }
        let fields = split_on(lines[pos].as_str(), '|');
        (QuestionSingle::single_from_iter(&fields), pos + 1)
    }

    /// The label under which the pronunciation kind is revealed.
    pub fn pron_kind(&self) -> (r: String)
        ensures
            r@ == kind_label(self@.pron_kind),
    {
        match self.pron_kind {
            PronunciationKind::Kun => String::from_str("kun'yomi"),
            PronunciationKind::On => String::from_str("on'yomi"),
        }
    }
}

/// Selection policy of a shard inside a generative question.
#[derive(Clone, Copy, Debug, PartialEq, Eq, Structural)]
pub enum ShardKind {
    Facultative,
    Obligatory,
    Multi,
    Invalid,
}

/// The shard kind encoded by the first character of a shard header line.
pub open spec fn spec_kind_from_char(c: char) -> ShardKind {
    if c == 'o' {
        ShardKind::Obligatory
    } else if c == 'f' {
        ShardKind::Facultative
    } else if c == 'm' {
        ShardKind::Multi
    } else {
        ShardKind::Invalid
    }
}

impl From<char> for ShardKind {
    fn from(c: char) -> (r: Self) {
        if c == 'o' {
            ShardKind::Obligatory
        } else if c == 'f' {
            ShardKind::Facultative
        } else if c == 'm' {
            ShardKind::Multi
        } else {
            ShardKind::Invalid
        }
    }
}

impl vstd::std_specs::convert::FromSpecImpl<char> for ShardKind {
    open spec fn obeys_from_spec() -> bool {
        true
    }

    open spec fn from_spec(c: char) -> Self {
        spec_kind_from_char(c)
    }
}

/// Mathematical view of a shard: its policy and the facts it groups.
#[verifier::ext_equal]
pub struct ShardView {
    pub kind: ShardKind,
    pub facts: Seq<FactView>,
}

/// The views of a sequence of facts.
pub open spec fn facts_view(v: Seq<QuestionSingle>) -> Seq<FactView> {
    v.map_values(|q: QuestionSingle| q@)
}

/// A named group of facts sharing one selection policy.
#[derive(Debug)]
pub struct QuestionGeneratorShard {
    pub expressions: Vec<QuestionSingle>,
    pub kind: ShardKind,
}

impl View for QuestionGeneratorShard {
    type V = ShardView;

    open spec fn view(&self) -> ShardView {
        ShardView { kind: self.kind, facts: facts_view(self.expressions@) }
    }
}

impl QuestionGeneratorShard {
    /// How many facts the shard holds.
    pub fn expr_count(&self) -> (r: usize)
        ensures
            r == self@.facts.len(),
    {
        self.expressions.len()
    }

    /// Draws one fact uniformly at random from the shard.
    pub fn generate(&self, rng: &mut rand::rngs::StdRng) -> (r: QuestionSingle)
        requires
            self@.facts.len() > 0,
        ensures
            exists|j: int| 0 <= j < self@.facts.len() && r@ == self@.facts[j],
    {
        let idx = crate::rng::rand_index(rng, self.expressions.len());
        let picked = self.expressions[idx].clone();
        proof {
            assert(picked@ == self@.facts[idx as int]);
        }
        picked
    }
}

/// The views of a sequence of shards.
pub open spec fn shards_view(v: Seq<QuestionGeneratorShard>) -> Seq<ShardView> {
    v.map_values(|s: QuestionGeneratorShard| s@)
}

/// Length of the contiguous run of `Multi` shards that opens the sequence.
pub open spec fn multi_run_len(shards: Seq<ShardView>) -> int
    decreases shards.len(),
{
    if shards.len() > 0 && shards[0].kind == ShardKind::Multi {
        1 + multi_run_len(shards.skip(1))
    } else {
        0
    }
}

pub proof fn lemma_multi_run_len_bounds(shards: Seq<ShardView>)
    ensures
        0 <= multi_run_len(shards) <= shards.len(),
        shards.len() > 0 && shards[0].kind == ShardKind::Multi ==> multi_run_len(shards) >= 1,
        forall|k: int|
            0 <= k < multi_run_len(shards) ==> (#[trigger] shards[k]).kind == ShardKind::Multi,
        multi_run_len(shards) < shards.len() ==> shards[multi_run_len(shards)].kind
            != ShardKind::Multi,
    decreases shards.len(),
{
    if shards.len() > 0 && shards[0].kind == ShardKind::Multi {
        lemma_multi_run_len_bounds(shards.skip(1));
        assert forall|k: int|
            0 <= k < multi_run_len(shards) implies (#[trigger] shards[k]).kind
            == ShardKind::Multi by {
            if k > 0 {
                assert(shards.skip(1)[k - 1] == shards[k]);
                assert(shards.skip(1)[k - 1].kind == ShardKind::Multi);
            }
        }
        if multi_run_len(shards) < shards.len() {
            assert(shards.skip(1)[multi_run_len(shards) - 1] == shards[multi_run_len(shards)]);
        }
    }
}

/// The generation relation: `out` is one admissible concrete sequence for
/// `shards`, read left to right. An `Obligatory` shard contributes exactly
/// one of its facts; a `Facultative` shard contributes one of its facts or
/// nothing; a contiguous run of `Multi` shards contributes exactly one fact
/// drawn from exactly one shard of the run; an `Invalid` shard contributes
/// nothing.
pub open spec fn gen_rel(shards: Seq<ShardView>, out: Seq<FactView>) -> bool
    decreases shards.len(),
    via gen_rel_decreases
{
    if shards.len() == 0 {
        out.len() == 0
    } else {
        match shards[0].kind {
            ShardKind::Obligatory => out.len() > 0 && shards[0].facts.contains(out[0]) && gen_rel(
                shards.skip(1),
                out.skip(1),
            ),
            ShardKind::Facultative => (out.len() > 0 && shards[0].facts.contains(out[0])
                && gen_rel(shards.skip(1), out.skip(1))) || gen_rel(shards.skip(1), out),
            ShardKind::Multi => {
                let run = multi_run_len(shards);
                out.len() > 0 && (exists|k: int|
                    0 <= k < run && (#[trigger] shards[k]).facts.contains(out[0])) && gen_rel(
                    shards.skip(run),
                    out.skip(1),
                )
            },
            ShardKind::Invalid => gen_rel(shards.skip(1), out),
        }
    }
}

#[via_fn]
proof fn gen_rel_decreases(shards: Seq<ShardView>, out: Seq<FactView>) {
    lemma_multi_run_len_bounds(shards);
}

/// Every shard a draw could reach holds at least one fact, so generation
/// cannot fail.
pub open spec fn askable(shards: Seq<ShardView>) -> bool {
    forall|i: int|
        0 <= i < shards.len() && (#[trigger] shards[i]).kind != ShardKind::Invalid
            ==> shards[i].facts.len() > 0
}

/// Mathematical view of a generative question.
#[verifier::ext_equal]
pub struct GeneratedView {
    pub shards: Seq<ShardView>,
}

/// A generative question: an ordered sequence of shards assembled anew on
/// every ask.
#[derive(Debug)]
pub struct QuestionGenerated {
    pub shards: Vec<QuestionGeneratorShard>,
}

impl View for QuestionGenerated {
    type V = GeneratedView;

    open spec fn view(&self) -> GeneratedView {
        GeneratedView { shards: shards_view(self.shards@) }
    }
}

impl QuestionGenerated {
    /// Resolves the shard sequence into one concrete sequence of facts, as
    /// the generation relation admits.
    pub fn generate_sequence(&self, rng: &mut rand::rngs::StdRng) -> (r: Vec<QuestionSingle>)
        requires
            askable(self@.shards),
        ensures
            gen_rel(self@.shards, facts_view(r@)),
    {
        let ghost shv = self@.shards;
        let mut out: Vec<QuestionSingle> = Vec::new();
        let mut i: usize = 0;
        proof {
            assert(facts_view(out@) =~= Seq::<FactView>::empty());
            assert(shv.skip(0) =~= shv);
            assert forall|rest: Seq<FactView>| #[trigger]
                gen_rel(shv.skip(0), rest) implies gen_rel(shv, facts_view(out@) + rest) by {
                assert(facts_view(out@) + rest =~= rest);
            }
        }
        while i < self.shards.len()
            invariant
                0 <= i <= self.shards.len(),
                shv == self@.shards,
                shv == shards_view(self.shards@),
                shv.len() == self.shards@.len(),
                askable(shv),
                forall|rest: Seq<FactView>| #[trigger]
                    gen_rel(shv.skip(i as int), rest) ==> gen_rel(shv, facts_view(out@) + rest),
            decreases self.shards@.len() - i,
        {
            let ghost old_out = out@;
            let ghost tail = shv.skip(i as int);
            proof {
                assert(tail.len() == shv.len() - i);
                assert(tail[0] == shv[i as int]);
                assert(shv[i as int] == self.shards@[i as int]@);
            }
            let next_i: usize;
            match self.shards[i].kind {
                ShardKind::Obligatory => {
                    let f = self.shards[i].generate(rng);
                    out.push(f);
                    next_i = i + 1;
                    proof {
                        let fv = f@;
                        assert(tail[0].facts.contains(fv));
                        assert(tail.skip(1) =~= shv.skip(i + 1));
                        assert forall|rest: Seq<FactView>| #[trigger]
                            gen_rel(shv.skip(next_i as int), rest) implies gen_rel(
                            shv,
                            facts_view(out@) + rest,
                        ) by {
                            let piece = seq![fv] + rest;
                            assert(piece[0] == fv);
                            assert(piece.skip(1) =~= rest);
                            assert(gen_rel(tail, piece));
                            assert(gen_rel(shv, facts_view(old_out) + piece));
                            assert(facts_view(out@) =~= facts_view(old_out).push(fv));
                            assert(facts_view(old_out) + piece =~= facts_view(out@) + rest);
                        }
                    }
                },
                ShardKind::Facultative => {
                    let f_opt = if crate::rng::coin_flip(rng) {
                        Some(self.shards[i].generate(rng))
                    } else {
                        None
                    };
                    match f_opt {
                        Some(f) => {
                            out.push(f);
                            next_i = i + 1;
                            proof {
                                let fv = f@;
                                assert(tail[0].facts.contains(fv));
                                assert(tail.skip(1) =~= shv.skip(i + 1));
                                assert forall|rest: Seq<FactView>| #[trigger]
                                    gen_rel(shv.skip(next_i as int), rest) implies gen_rel(
                                    shv,
                                    facts_view(out@) + rest,
                                ) by {
                                    let piece = seq![fv] + rest;
                                    assert(piece[0] == fv);
                                    assert(piece.skip(1) =~= rest);
                                    assert(gen_rel(tail, piece));
                                    assert(gen_rel(shv, facts_view(old_out) + piece));
                                    assert(facts_view(out@) =~= facts_view(old_out).push(fv));
                                    assert(facts_view(old_out) + piece =~= facts_view(out@)
                                        + rest);
                                }
                            }
                        },
                        None => {
                            next_i = i + 1;
                            proof {
                                assert(tail.skip(1) =~= shv.skip(i + 1));
                                assert forall|rest: Seq<FactView>| #[trigger]
                                    gen_rel(shv.skip(next_i as int), rest) implies gen_rel(
                                    shv,
                                    facts_view(out@) + rest,
                                ) by {
                                    assert(gen_rel(tail, rest));
                                }
                            }
                        },
                    }
                },
                ShardKind::Multi => {
                    let mut j: usize = i + 1;
                    while j < self.shards.len() && matches!(self.shards[j].kind, ShardKind::Multi)
                        invariant
                            i < j <= self.shards.len(),
                            shv == shards_view(self.shards@),
                            shv.len() == self.shards@.len(),
                            forall|k: int|
                                i <= k < j ==> (#[trigger] shv[k]).kind == ShardKind::Multi,
                        decreases self.shards@.len() - j,
                    {
                        j = j + 1;
                    }
                    proof {
                        lemma_multi_run_len_bounds(tail);
                        assert(forall|k: int| 0 <= k < tail.len() ==> tail[k] == shv[i + k]);
                        // the run inside `tail` is exactly `j - i` long
                        assert(forall|k: int|
                            0 <= k < j - i ==> (#[trigger] tail[k]).kind == ShardKind::Multi);
                        if multi_run_len(tail) < j - i {
                            assert(tail[multi_run_len(tail)].kind != ShardKind::Multi);
                            assert(false);
                        }
                        if multi_run_len(tail) > j - i {
                            assert(j < self.shards.len());
                            assert(tail[j - i].kind == ShardKind::Multi);
                            assert(shv[j as int].kind == ShardKind::Multi);
                            assert(false);
                        }
                        assert(multi_run_len(tail) == j - i);
                    }
                    let k = crate::rng::rand_index(rng, j - i);
                    proof {
                        assert(shv[i + k].kind == ShardKind::Multi);
                        assert(shv[i + k].facts.len() > 0);
                    }
                    let f = self.shards[i + k].generate(rng);
                    out.push(f);
                    next_i = j;
                    proof {
                        let fv = f@;
                        assert(tail[k as int].facts.contains(fv));
                        assert(tail.skip(j - i) =~= shv.skip(j as int));
                        assert forall|rest: Seq<FactView>| #[trigger]
                            gen_rel(shv.skip(next_i as int), rest) implies gen_rel(
                            shv,
                            facts_view(out@) + rest,
                        ) by {
                            let piece = seq![fv] + rest;
                            assert(piece[0] == fv);
                            assert(piece.skip(1) =~= rest);
                            assert(gen_rel(tail, piece));
                            assert(gen_rel(shv, facts_view(old_out) + piece));
                            assert(facts_view(out@) =~= facts_view(old_out).push(fv));
                            assert(facts_view(old_out) + piece =~= facts_view(out@) + rest);
                        }
                    }
                },
                ShardKind::Invalid => {
                    next_i = i + 1;
                    proof {
                        assert(tail.skip(1) =~= shv.skip(i + 1));
                        assert forall|rest: Seq<FactView>| #[trigger]
                            gen_rel(shv.skip(next_i as int), rest) implies gen_rel(
                            shv,
                            facts_view(out@) + rest,
                        ) by {
                            assert(gen_rel(tail, rest));
                        }
                    }
                },
            }
            i = next_i;
        }
        proof {
            assert(shv.skip(i as int) =~= Seq::<ShardView>::empty());
            assert(gen_rel(shv.skip(i as int), Seq::<FactView>::empty()));
            assert(facts_view(out@) + Seq::<FactView>::empty() =~= facts_view(out@));
        }
        out
    }

    /// Selection weight: twice the number of shards, making richer
    /// generative questions proportionally more likely to be drawn.
    pub fn weight(&self) -> (r: usize)
        requires
            2 * self@.shards.len() <= usize::MAX,
        ensures
            r == 2 * self@.shards.len(),
    {
        self.shards.len() * 2
    }
}

/// The sentinel line that opens a generator block.
pub open spec fn gb_line() -> Seq<char> {
    seq!['G', 'B']
}

/// The sentinel line that closes a generator block.
pub open spec fn ge_line() -> Seq<char> {
    seq!['G', 'E']
}

/// A shard header line: its first character is one of the three valid shard
/// kind codes.
pub open spec fn is_header(line: Seq<char>) -> bool {
    line.len() > 0 && (line[0] == 'o' || line[0] == 'f' || line[0] == 'm')
}

/// Appends the still-open shard, if any, to the accumulated ones.
pub open spec fn close_shards(cur: Option<ShardView>, acc: Seq<ShardView>) -> Seq<ShardView> {
    match cur {
        Some(s) => acc.push(s),
        None => acc,
    }
}

/// The body of a generator block from line `i` on: shards accumulated so
/// far in `acc`, the open shard in `cur`. Ends at the end sentinel (which is
/// consumed) or at the end of input; a line that parses as a fact while no
/// shard is open has no defined outcome (`None`), since filing it is
/// impossible.
pub open spec fn spec_gen_body(
    lines: Seq<Seq<char>>,
    i: int,
    cur: Option<ShardView>,
    acc: Seq<ShardView>,
) -> Option<(Seq<ShardView>, int)>
    decreases lines.len() - i,
        when 0 <= i
{
    if i >= lines.len() {
        Some((close_shards(cur, acc), lines.len() as int))
    } else if lines[i] == ge_line() {
        Some((close_shards(cur, acc), i + 1))
    } else if is_header(lines[i]) {
        spec_gen_body(
            lines,
            i + 1,
            Some(ShardView { kind: spec_kind_from_char(lines[i][0]), facts: Seq::empty() }),
            close_shards(cur, acc),
        )
    } else {
        match spec_parse_fact(lines[i]) {
            Some(f) => match cur {
                Some(sh) => spec_gen_body(
                    lines,
                    i + 1,
                    Some(ShardView { kind: sh.kind, facts: sh.facts.push(f) }),
                    acc,
                ),
                None => None,
            },
            None => spec_gen_body(lines, i + 1, cur, acc),
        }
    }
}

/// A block starting at `pos` never files a fact while no shard is open, so
/// parsing it cannot fail.
pub open spec fn gen_block_ok(lines: Seq<Seq<char>>, pos: int) -> bool {
    lines[pos] == gb_line() ==> spec_gen_body(lines, pos + 1, None, Seq::empty()) is Some
}

/// One parse attempt of a generator block at `pos`: fails consuming one line
/// unless the begin sentinel is there, then collects shards to the end
/// sentinel or the end of input.
pub open spec fn spec_parse_gen(lines: Seq<Seq<char>>, pos: int) -> (Option<GeneratedView>, int) {
    if lines[pos] != gb_line() {
        (None, pos + 1)
    } else {
        match spec_gen_body(lines, pos + 1, None, Seq::empty()) {
            Some((shs, end)) => (Some(GeneratedView { shards: shs }), end),
            None => (None, pos + 1),
        }
    }
}

proof fn lemma_gen_body_shards_valid(
    lines: Seq<Seq<char>>,
    i: int,
    cur: Option<ShardView>,
    acc: Seq<ShardView>,
)
    requires
        0 <= i,
        (cur matches Some(s) ==> s.kind != ShardKind::Invalid),
        forall|k: int| 0 <= k < acc.len() ==> (#[trigger] acc[k]).kind != ShardKind::Invalid,
        spec_gen_body(lines, i, cur, acc) is Some,
    ensures
        forall|k: int|
            0 <= k < spec_gen_body(lines, i, cur, acc).unwrap().0.len() ==> (#[trigger] spec_gen_body(
                lines,
                i,
                cur,
                acc,
            ).unwrap().0[k]).kind != ShardKind::Invalid,
    decreases lines.len() - i,
{
    let closed = close_shards(cur, acc);
    assert(forall|k: int|
        0 <= k < closed.len() ==> (#[trigger] closed[k]).kind != ShardKind::Invalid);
    if i >= lines.len() {
    } else if lines[i] == ge_line() {
    } else if is_header(lines[i]) {
        let c = lines[i][0];
        assert(spec_kind_from_char(c) != ShardKind::Invalid);
        lemma_gen_body_shards_valid(
            lines,
            i + 1,
            Some(ShardView { kind: spec_kind_from_char(c), facts: Seq::empty() }),
            closed,
        );
    } else {
        match spec_parse_fact(lines[i]) {
            Some(f) => match cur {
                Some(sh) => {
                    lemma_gen_body_shards_valid(
                        lines,
                        i + 1,
                        Some(ShardView { kind: sh.kind, facts: sh.facts.push(f) }),
                        acc,
                    );
                },
                None => {},
            },
            None => {
                lemma_gen_body_shards_valid(lines, i + 1, cur, acc);
            },
        }
    }
}

/// Parse-time rejection of the invalid marker: a parsed generator block
/// never places an `Invalid` shard, since the header check admits only the
/// three valid shard codes.
pub proof fn lemma_no_invalid_shards(lines: Seq<Seq<char>>, pos: int, g: GeneratedView)
    requires
        0 <= pos,
        spec_parse_gen(lines, pos).0 == Some(g),
    ensures
        forall|k: int|
            0 <= k < g.shards.len() ==> (#[trigger] g.shards[k]).kind != ShardKind::Invalid,
{
    lemma_gen_body_shards_valid(lines, pos + 1, None, Seq::empty());
}

/// The view of a possibly open shard.
pub open spec fn opt_shard_view(c: Option<QuestionGeneratorShard>) -> Option<ShardView> {
    match c {
        Some(s) => Some(s@),
        None => None,
    }
}

impl QuestionGenerated {
    /// Reads one whole generator block starting at `pos`.
    pub fn parse(lines: &Vec<String>, pos: usize) -> (r: (Option<QuestionGenerated>, usize))
        requires
            pos < lines@.len(),
            gen_block_ok(strs_view(lines@), pos as int),
        ensures
            ({
                let (q, np) = spec_parse_gen(strs_view(lines@), pos as int);
                &&& (r.0 matches Some(g) ==> q == Some(g@))
                &&& (r.0 is None ==> q is None)
                &&& r.1 == np
            }),
            pos < r.1 <= lines@.len(),
    {
        let ghost lv = strs_view(lines@);
        let n_lines = lines.len();
        let gb = String::from_str("GB");
        let ge = String::from_str("GE");
        proof {
            reveal_strlit("GB");
            reveal_strlit("GE");
            assert(gb@ =~= gb_line());
            assert(ge@ =~= ge_line());
            assert(lv[pos as int] == lines@[pos as int]@);
        }
        if !(lines[pos] == gb) {
            return (None, pos + 1);
        }
        let mut shards: Vec<QuestionGeneratorShard> = Vec::new();
        let mut cur: Option<QuestionGeneratorShard> = None;
        let mut i: usize = pos + 1;
        let mut stopped = false;
        proof {
            assert(shards_view(shards@) =~= Seq::<ShardView>::empty());
        }
        while i < n_lines && !stopped
            invariant
                pos + 1 <= i <= n_lines,
                n_lines == lines@.len(),
                lv == strs_view(lines@),
                gb@ == gb_line(),
                ge@ == ge_line(),
                spec_gen_body(lv, (pos + 1) as int, None, Seq::empty()) is Some,
                !stopped ==> spec_gen_body(lv, (pos + 1) as int, None, Seq::empty())
                    == spec_gen_body(lv, i as int, opt_shard_view(cur), shards_view(shards@)),
                stopped ==> spec_gen_body(lv, (pos + 1) as int, None, Seq::empty()) == Some(
                    (close_shards(opt_shard_view(cur), shards_view(shards@)), i as int),
                ),
            decreases lv.len() - i,
        {
            let ghost old_cur_v = opt_shard_view(cur);
            let ghost old_acc_v = shards_view(shards@);
            let ghost old_i = i as int;
            proof {
                assert(lv[i as int] == lines@[i as int]@);
            }
            if lines[i] == ge {
                stopped = true;
                i = i + 1;
                proof {
                    assert(lv[old_i] == ge_line());
                    assert(spec_gen_body(lv, old_i, old_cur_v, old_acc_v) == Some(
                        (close_shards(old_cur_v, old_acc_v), old_i + 1),
                    ));
                }
            } else {
                let s = lines[i].as_str();
                let n = s.unicode_len();
                let mut is_hdr = false;
                if n > 0 {
                    let c0 = s.get_char(0);
                    is_hdr = c0 == 'o' || c0 == 'f' || c0 == 'm';
                }
                proof {
                    assert(is_hdr == is_header(lv[i as int]));
                }
                if is_hdr {
                    let c0 = s.get_char(0);
                    match cur {
                        Some(prev) => {
                            shards.push(prev);
                            proof {
                                assert(shards_view(shards@) =~= close_shards(
                                    old_cur_v,
                                    old_acc_v,
                                ));
                            }
                        },
                        None => {
                            proof {
                                assert(shards_view(shards@) =~= close_shards(
                                    old_cur_v,
                                    old_acc_v,
                                ));
                            }
                        },
                    }
                    let fresh = QuestionGeneratorShard {
                        expressions: Vec::new(),
                        kind: ShardKind::from(c0),
                    };
                    proof {
                        assert(fresh@ =~= ShardView {
                            kind: spec_kind_from_char(lv[i as int][0]),
                            facts: Seq::empty(),
                        });
                    }
                    cur = Some(fresh);
                    i = i + 1;
                    proof {
                        assert(lv[old_i] != ge_line());
                        assert(is_header(lv[old_i]));
                        assert(spec_gen_body(lv, old_i, old_cur_v, old_acc_v) == spec_gen_body(
                            lv,
                            old_i + 1,
                            opt_shard_view(cur),
                            shards_view(shards@),
                        ));
                    }
                } else {
                    let fields = split_on(s, '|');
                    let fact_opt = QuestionSingle::single_from_iter(&fields);
                    match fact_opt {
                        Some(q) => {
                            proof {
                                assert(spec_parse_fact(lv[i as int]) == Some(q@));
                            }
                            cur = match cur {
                                Some(mut sh) => {
                                    let ghost old_sh_v = sh@;
                                    sh.expressions.push(q);
                                    proof {
                                        assert(sh@ =~= ShardView {
                                            kind: old_sh_v.kind,
                                            facts: old_sh_v.facts.push(q@),
                                        });
                                    }
                                    Some(sh)
                                },
                                None => {
                                    proof {
                                        // the precondition says this block parses, yet an
                                        // orphan fact line maps the body to failure
                                        assert(lv[old_i] != ge_line());
                                        assert(!is_header(lv[old_i]));
                                        assert(old_cur_v is None);
                                        assert(spec_gen_body(lv, old_i, old_cur_v, old_acc_v)
                                            is None);
                                        assert(false);
                                    }
                                    None
                                },
                            };
                            i = i + 1;
                            proof {
                                assert(lv[old_i] != ge_line());
                                assert(!is_header(lv[old_i]));
                                assert(spec_gen_body(lv, old_i, old_cur_v, old_acc_v)
                                    == spec_gen_body(
                                    lv,
                                    old_i + 1,
                                    opt_shard_view(cur),
                                    shards_view(shards@),
                                ));
                            }
                        },
                        None => {
                            proof {
                                assert(spec_parse_fact(lv[i as int]) is None);
                            }
                            i = i + 1;
                            proof {
                                assert(lv[old_i] != ge_line());
                                assert(!is_header(lv[old_i]));
                                assert(spec_gen_body(lv, old_i, old_cur_v, old_acc_v)
                                    == spec_gen_body(
                                    lv,
                                    old_i + 1,
                                    opt_shard_view(cur),
                                    shards_view(shards@),
                                ));
                            }
                        },
                    }
                }
            }
        }
        let ghost final_cur_v = opt_shard_view(cur);
        let ghost final_acc_v = shards_view(shards@);
        match cur {
            Some(last) => {
                shards.push(last);
                proof {
                    assert(shards_view(shards@) =~= close_shards(final_cur_v, final_acc_v));
                }
            },
            None => {
                proof {
                    assert(shards_view(shards@) =~= close_shards(final_cur_v, final_acc_v));
                }
            },
        }
        let built = QuestionGenerated { shards };
        (Some(built), i)
    }
}

impl QuestionGenerated {
    /// Scans one generator block without building it: whether the block at
    /// `pos` parses, and the position just past it.
    pub fn scan_block(lines: &Vec<String>, pos: usize) -> (r: Option<usize>)
        requires
            pos < lines@.len(),
            strs_view(lines@)[pos as int] == gb_line(),
        ensures
            ({
                let body = spec_gen_body(strs_view(lines@), pos as int + 1, None, Seq::empty());
                match r {
                    Some(end) => body matches Some(p) && p.1 == end as int && pos < end
                        <= lines@.len(),
                    None => body is None,
                }
            }),
    {
        let ghost lv = strs_view(lines@);
        let n_lines = lines.len();
        let ge = String::from_str("GE");
        proof {
            reveal_strlit("GE");
            assert(ge@ =~= ge_line());
        }
        let mut has_open = false;
        let ghost mut cur_v: Option<ShardView> = None;
        let ghost mut acc_v: Seq<ShardView> = Seq::empty();
        let mut i: usize = pos + 1;
        while i < n_lines
            invariant
                pos + 1 <= i <= n_lines,
                n_lines == lines@.len(),
                lv == strs_view(lines@),
                ge@ == ge_line(),
                has_open == (cur_v is Some),
                spec_gen_body(lv, (pos + 1) as int, None, Seq::empty()) == spec_gen_body(
                    lv,
                    i as int,
                    cur_v,
                    acc_v,
                ),
            decreases lv.len() - i,
        {
            let ghost old_i = i as int;
            let ghost old_cur = cur_v;
            let ghost old_acc = acc_v;
            proof {
                assert(lv[i as int] == lines@[i as int]@);
            }
            if lines[i] == ge {
                proof {
                    assert(spec_gen_body(lv, old_i, old_cur, old_acc) == Some(
                        (close_shards(old_cur, old_acc), old_i + 1),
                    ));
                }
                return Some(i + 1);
            }
            let s = lines[i].as_str();
            let n = s.unicode_len();
            let mut is_hdr = false;
            if n > 0 {
                let c0 = s.get_char(0);
                is_hdr = c0 == 'o' || c0 == 'f' || c0 == 'm';
            }
            proof {
                assert(is_hdr == is_header(lv[old_i]));
            }
            if is_hdr {
                proof {
                    acc_v = close_shards(old_cur, old_acc);
                    cur_v = Some(
                        ShardView { kind: spec_kind_from_char(lv[old_i][0]), facts: Seq::empty() },
                    );
                }
                has_open = true;
            } else {
                let fields = split_on(s, '|');
                let fact_opt = QuestionSingle::single_from_iter(&fields);
                match fact_opt {
                    Some(q) => {
                        if !has_open {
                            proof {
                                assert(spec_parse_fact(lv[old_i]) == Some(q@));
                                assert(spec_gen_body(lv, old_i, old_cur, old_acc) is None);
                            }
                            return None;
                        }
                        proof {
                            assert(spec_parse_fact(lv[old_i]) == Some(q@));
                            let sh = old_cur.unwrap();
                            cur_v = Some(ShardView { kind: sh.kind, facts: sh.facts.push(q@) });
                        }
                    },
                    None => {
                        proof {
                            assert(spec_parse_fact(lv[old_i]) is None);
                        }
                    },
                }
            }
            i = i + 1;
            proof {
                assert(lv[old_i] != ge_line());
                assert(spec_gen_body(lv, old_i, old_cur, old_acc) == spec_gen_body(
                    lv,
                    old_i + 1,
                    cur_v,
                    acc_v,
                ));
            }
        }
        proof {
            assert(spec_gen_body(lv, i as int, cur_v, acc_v) == Some(
                (close_shards(cur_v, acc_v), lv.len() as int),
            ));
        }
        Some(i)
    }
}

/// Mathematical view of a multi-kanji record.
#[verifier::ext_equal]
pub struct MultiView {
    pub inner: FactView,
    pub composition: Seq<char>,
}

/// A multi-kanji record: a fact plus the composition of its characters.
#[derive(Debug)]
pub struct QuestionMultiple {
    pub inner: QuestionSingle,
    pub composition: String,
}

impl View for QuestionMultiple {
    type V = MultiView;

    open spec fn view(&self) -> MultiView {
        MultiView { inner: self.inner@, composition: self.composition@ }
    }
}

/// A multi-kanji record read from one line: the single-record fields plus a
/// mandatory fifth field.
pub open spec fn spec_parse_multi(line: Seq<char>) -> Option<MultiView> {
    let fields = spec_split(line, '|');
    if fields.len() < 5 {
        None
    } else {
        match spec_fact_of_fields(fields) {
            Some(f) => Some(MultiView { inner: f, composition: fields[4] }),
            None => None,
        }
    }
}

impl QuestionMultiple {
    /// Reads one multi-kanji record from the line at `pos`, consuming
    /// exactly that line.
    pub fn parse(lines: &Vec<String>, pos: usize) -> (r: (Option<QuestionMultiple>, usize))
        ensures
            pos < lines@.len() ==> {
                &&& r.1 == pos + 1
                &&& (r.0 matches Some(q) ==> spec_parse_multi(lines@[pos as int]@) == Some(q@))
                &&& (r.0 is None ==> spec_parse_multi(lines@[pos as int]@) is None)
            },
            pos >= lines@.len() ==> r.0 is None && r.1 == pos,
    {
        if pos >= lines.len() {
            return (None, pos);
        }
        let fields = split_on(lines[pos].as_str(), '|');
        let inner_opt = QuestionSingle::single_from_iter(&fields);
        match inner_opt {
            Some(inner) => {
                if fields.len() < 5 {
                    (None, pos + 1)
                } else {
                    let built = QuestionMultiple { inner, composition: fields[4].clone() };
                    (Some(built), pos + 1)
                }
            },
            None => (None, pos + 1),
        }
    }
}

proof fn lemma_split_rec_shape(s: Seq<char>, sep: char, cur: Seq<char>, acc: Seq<Seq<char>>)
    ensures
        split_rec(s, sep, cur, acc).len() > acc.len(),
        forall|j: int| 0 <= j < acc.len() ==> #[trigger] split_rec(s, sep, cur, acc)[j] == acc[j],
        split_rec(s, sep, cur, acc)[acc.len() as int].len() >= cur.len(),
        forall|k: int|
            0 <= k < cur.len() ==> #[trigger] split_rec(s, sep, cur, acc)[acc.len() as int][k]
                == cur[k],
    decreases s.len(),
{
    if s.len() == 0 {
    } else if s[0] == sep {
        lemma_split_rec_shape(s.skip(1), sep, Seq::empty(), acc.push(cur));
    } else {
        lemma_split_rec_shape(s.skip(1), sep, cur.push(s[0]), acc);
    }
}

/// A line that parses as a fact opens with its kind code, so it is neither
/// a shard header nor the end sentinel.
pub proof fn lemma_fact_line_shape(line: Seq<char>, f: FactView)
    requires
        spec_parse_fact(line) == Some(f),
    ensures
        line.len() > 0,
        line[0] == 'K' || line[0] == 'O',
        !is_header(line),
        line != ge_line(),
        line != gb_line(),
{
    let fields = spec_split(line, '|');
    assert(fields[0] == seq!['K'] || fields[0] == seq!['O']);
    if line.len() == 0 {
        assert(fields[0].len() == 0);
        assert(false);
    }
    if line[0] == '|' {
        assert(line.skip(1).len() < line.len());
        lemma_split_rec_shape(line.skip(1), '|', Seq::empty(), Seq::<Seq<char>>::empty().push(
            Seq::empty(),
        ));
        assert(fields[0].len() == 0);
        assert(false);
    }
    lemma_split_rec_shape(line.skip(1), '|', Seq::empty().push(line[0]), Seq::empty());
    assert(fields[0][0] == line[0]);
    assert(ge_line()[0] == 'G');
    assert(gb_line()[0] == 'G');
}

/// Tolerant parsing law: a generator block holding one shard header, then a
/// valid fact line, a malformed line, and a second valid fact line, yields
/// exactly one shard with exactly the two valid facts; the malformed line is
/// dropped, not fatal.
pub proof fn lemma_tolerant_parsing(
    header: Seq<char>,
    good1: Seq<char>,
    bad: Seq<char>,
    good2: Seq<char>,
    f1: FactView,
    f2: FactView,
)
    requires
        is_header(header),
        spec_parse_fact(good1) == Some(f1),
        spec_parse_fact(bad) is None,
        !is_header(bad),
        bad != ge_line(),
        spec_parse_fact(good2) == Some(f2),
    ensures
        ({
            let block = seq![gb_line(), header, good1, bad, good2, ge_line()];
            spec_parse_gen(block, 0) == (
                Some(
                    GeneratedView {
                        shards: seq![
                            ShardView { kind: spec_kind_from_char(header[0]), facts: seq![f1, f2] },
                        ],
                    },
                ),
                6int,
            )
        }),
{
    let block = seq![gb_line(), header, good1, bad, good2, ge_line()];
    let k = spec_kind_from_char(header[0]);
    lemma_fact_line_shape(good1, f1);
    lemma_fact_line_shape(good2, f2);
    assert(header != ge_line()) by {
        assert(header[0] == 'o' || header[0] == 'f' || header[0] == 'm');
        assert(ge_line()[0] == 'G');
    }
    let empty_acc = Seq::<ShardView>::empty();
    let sh0 = ShardView { kind: k, facts: Seq::empty() };
    let sh1 = ShardView { kind: k, facts: Seq::empty().push(f1) };
    let sh2 = ShardView { kind: k, facts: Seq::empty().push(f1).push(f2) };
    assert(spec_gen_body(block, 1, None, empty_acc) == spec_gen_body(
        block,
        2,
        Some(sh0),
        empty_acc,
    ));
    assert(spec_gen_body(block, 2, Some(sh0), empty_acc) == spec_gen_body(
        block,
        3,
        Some(sh1),
        empty_acc,
    ));
    assert(spec_gen_body(block, 3, Some(sh1), empty_acc) == spec_gen_body(
        block,
        4,
        Some(sh1),
        empty_acc,
    ));
    assert(spec_gen_body(block, 4, Some(sh1), empty_acc) == spec_gen_body(
        block,
        5,
        Some(sh2),
        empty_acc,
    ));
    assert(spec_gen_body(block, 5, Some(sh2), empty_acc) == Some((empty_acc.push(sh2), 6int)));
    assert(sh2.facts =~= seq![f1, f2]);
    assert(empty_acc.push(sh2) =~= seq![ShardView { kind: k, facts: seq![f1, f2] }]);
}

/// Multi-run grouping law: over shard kinds `[Multi, Multi, Obligatory,
/// Multi]`, any admissible generation emits exactly three facts: one from
/// the first two shards combined, one from the obligatory shard, and one
/// from the trailing shard, which is grouped on its own.
pub proof fn lemma_multi_run_grouping(shards: Seq<ShardView>, out: Seq<FactView>)
    requires
        shards.len() == 4,
        shards[0].kind == ShardKind::Multi,
        shards[1].kind == ShardKind::Multi,
        shards[2].kind == ShardKind::Obligatory,
        shards[3].kind == ShardKind::Multi,
        gen_rel(shards, out),
    ensures
        out.len() == 3,
        shards[0].facts.contains(out[0]) || shards[1].facts.contains(out[0]),
        shards[2].facts.contains(out[1]),
        shards[3].facts.contains(out[2]),
{
    let s1 = shards.skip(1);
    let s2 = shards.skip(2);
    let s3 = shards.skip(3);
    let s4 = shards.skip(4);
    assert(s1[0] == shards[1] && s1[1] == shards[2] && s1[2] == shards[3]);
    assert(s2[0] == shards[2] && s2[1] == shards[3]);
    assert(s3[0] == shards[3]);
    assert(s4.len() == 0);
    assert(s1.skip(1) =~= s2);
    assert(s2.skip(1) =~= s3);
    assert(s3.skip(1) =~= s4);
    assert(multi_run_len(shards) == 2) by {
        assert(multi_run_len(s2) == 0);
        assert(multi_run_len(s1) == 1);
    }
    assert(out.len() > 0);
    assert(exists|j: int| 0 <= j < 2 && (#[trigger] shards[j]).facts.contains(out[0]));
    let o1 = out.skip(1);
    assert(gen_rel(s2, o1));
    assert(o1.len() > 0 && s2[0].facts.contains(o1[0]));
    assert(o1[0] == out[1]);
    let o2 = o1.skip(1);
    assert(o1.skip(1) =~= out.skip(2));
    assert(gen_rel(s3, o2));
    assert(multi_run_len(s3) == 1) by {
        assert(multi_run_len(s3.skip(1)) == 0);
    }
    assert(o2.len() > 0);
    assert(exists|j: int| 0 <= j < 1 && (#[trigger] s3[j]).facts.contains(o2[0]));
    assert(s3[0].facts.contains(o2[0]));
    assert(o2[0] == out[2]);
    let o3 = o2.skip(1);
    assert(s3.skip(multi_run_len(s3)) =~= s4);
    assert(gen_rel(s4, o3));
    assert(o3.len() == 0);
    assert(out.len() == 3);
}

/// `parts` joined, with `sep` between consecutive parts.
pub open spec fn join_with(parts: Seq<Seq<char>>, sep: Seq<char>) -> Seq<char>
    decreases parts.len(),
{
    if parts.len() == 0 {
        Seq::empty()
    } else if parts.len() == 1 {
        parts[0]
    } else {
        parts[0] + sep + join_with(parts.skip(1), sep)
    }
}

/// What remains to be appended after the first `i` parts are joined.
pub open spec fn join_tail(parts: Seq<Seq<char>>, sep: Seq<char>, i: int) -> Seq<char> {
    if i >= parts.len() {
        Seq::empty()
    } else {
        sep + join_with(parts.skip(i), sep)
    }
}

/// Joins strings with a separator.
pub fn join_strings(parts: &Vec<String>, sep: &str) -> (r: String)
    ensures
        r@ == join_with(strs_view(parts@), sep@),
{
    let ghost pv = strs_view(parts@);
    let ghost sv = sep@;
    let n = parts.len();
    if n == 0 {
        let empty_r = String::new();
        return empty_r;
    }
    let mut res = parts[0].clone();
    let mut i: usize = 1;
    proof {
        if pv.len() > 1 {
            assert(res@ + join_tail(pv, sv, 1) =~= pv[0] + sv + join_with(pv.skip(1), sv));
        } else {
            assert(res@ + join_tail(pv, sv, 1) =~= pv[0]);
        }
    }
    while i < n
        invariant
            1 <= i <= n,
            n == parts@.len(),
            pv == strs_view(parts@),
            sv == sep@,
            join_with(pv, sv) == res@ + join_tail(pv, sv, i as int),
        decreases n - i,
    {
        let ghost old_res = res@;
        res.append(sep);
        res.append(parts[i].as_str());
        proof {
            assert(pv.skip(i as int)[0] == pv[i as int]);
            assert(pv.skip(i as int).skip(1) =~= pv.skip(i as int + 1));
            if i + 1 < n {
                assert(join_with(pv.skip(i as int), sv) == pv[i as int] + sv + join_with(
                    pv.skip(i as int + 1),
                    sv,
                ));
                assert(old_res + join_tail(pv, sv, i as int) =~= res@ + join_tail(
                    pv,
                    sv,
                    i as int + 1,
                ));
            } else {
                assert(join_with(pv.skip(i as int), sv) == pv[i as int]);
                assert(old_res + join_tail(pv, sv, i as int) =~= res@);
                assert(res@ + join_tail(pv, sv, i as int + 1) =~= res@);
            }
        }
        i = i + 1;
    }
    res
}

/// Mathematical view of a rendered ask: the prompt shown first and the
/// parts revealed after acknowledgment.
#[verifier::ext_equal]
pub struct AskView {
    pub prompt: Seq<char>,
    pub pronunciation: Seq<char>,
    pub meaning: Seq<char>,
    pub kind_label: Option<Seq<char>>,
    pub composition: Option<Seq<char>>,
}

/// A rendered ask: what a question presents and then reveals.
#[derive(Debug)]
pub struct AskOutcome {
    pub prompt: String,
    pub pronunciation: String,
    pub meaning: String,
    pub kind_label: Option<String>,
    pub composition: Option<String>,
}

impl View for AskOutcome {
    type V = AskView;

    open spec fn view(&self) -> AskView {
        AskView {
            prompt: self.prompt@,
            pronunciation: self.pronunciation@,
            meaning: self.meaning@,
            kind_label: match self.kind_label {
                Some(s) => Some(s@),
                None => None,
            },
            composition: match self.composition {
                Some(s) => Some(s@),
                None => None,
            },
        }
    }
}

/// How a single-kanji question renders.
pub open spec fn spec_ask_single(f: FactView) -> AskView {
    AskView {
        prompt: f.expr,
        pronunciation: f.pron,
        meaning: f.meaning,
        kind_label: Some(kind_label(f.pron_kind)),
        composition: None,
    }
}

/// How a multi-kanji question renders.
pub open spec fn spec_ask_multiple(m: MultiView) -> AskView {
    AskView {
        prompt: m.inner.expr,
        pronunciation: m.inner.pron,
        meaning: m.inner.meaning,
        kind_label: Some(kind_label(m.inner.pron_kind)),
        composition: Some(m.composition),
    }
}

/// How a generated sequence of facts renders: expressions concatenated for
/// the prompt, pronunciations joined with `-`, meanings concatenated.
pub open spec fn spec_ask_generated(facts: Seq<FactView>) -> AskView {
    AskView {
        prompt: join_with(facts.map_values(|f: FactView| f.expr), Seq::empty()),
        pronunciation: join_with(facts.map_values(|f: FactView| f.pron), seq!['-']),
        meaning: join_with(facts.map_values(|f: FactView| f.meaning), Seq::empty()),
        kind_label: None,
        composition: None,
    }
}

impl QuestionSingle {
    /// Renders the question.
    pub fn ask(&self) -> (r: AskOutcome)
        ensures
            r@ == spec_ask_single(self@),
    {
        let r = AskOutcome {
            prompt: self.expr.clone(),
            pronunciation: self.pron.clone(),
            meaning: self.meaning.clone(),
            kind_label: Some(self.pron_kind()),
            composition: None,
        };
        proof {
            assert(r@ =~= spec_ask_single(self@));
        }
        r
    }

    /// Selection weight of a plain record question.
    pub fn weight(&self) -> (r: usize)
        ensures
            r == 1,
    {
        1
    }
}

impl QuestionMultiple {
    /// Renders the question, composition included in the reveal.
    pub fn ask(&self) -> (r: AskOutcome)
        ensures
            r@ == spec_ask_multiple(self@),
    {
        let r = AskOutcome {
            prompt: self.inner.expr.clone(),
            pronunciation: self.inner.pron.clone(),
            meaning: self.inner.meaning.clone(),
            kind_label: Some(self.inner.pron_kind()),
            composition: Some(self.composition.clone()),
        };
        proof {
            assert(r@ =~= spec_ask_multiple(self@));
        }
        r
    }

    /// Selection weight of a plain record question.
    pub fn weight(&self) -> (r: usize)
        ensures
            r == 1,
    {
        1
    }
}

impl QuestionGenerated {
    /// Renders the question: resolves the shards into one fresh concrete
    /// sequence of facts and assembles prompt and reveal from it.
    pub fn ask(&self, rng: &mut rand::rngs::StdRng) -> (r: AskOutcome)
        requires
            askable(self@.shards),
        ensures
            exists|facts: Seq<FactView>|
                gen_rel(self@.shards, facts) && r@ == spec_ask_generated(facts),
    {
        let picked = self.generate_sequence(rng);
        let ghost fv = facts_view(picked@);
        let mut exprs: Vec<String> = Vec::new();
        let mut prons: Vec<String> = Vec::new();
        let mut means: Vec<String> = Vec::new();
        let n = picked.len();
        let mut i: usize = 0;
        while i < n
            invariant
                0 <= i <= n,
                n == picked@.len(),
                fv == facts_view(picked@),
                exprs@.len() == i,
                prons@.len() == i,
                means@.len() == i,
                forall|k: int| 0 <= k < i ==> (#[trigger] exprs@[k])@ == fv[k].expr,
                forall|k: int| 0 <= k < i ==> (#[trigger] prons@[k])@ == fv[k].pron,
                forall|k: int| 0 <= k < i ==> (#[trigger] means@[k])@ == fv[k].meaning,
            decreases n - i,
        {
            exprs.push(picked[i].expr.clone());
            prons.push(picked[i].pron.clone());
            means.push(picked[i].meaning.clone());
            i = i + 1;
        }
        proof {
            assert(strs_view(exprs@) =~= fv.map_values(|f: FactView| f.expr));
            assert(strs_view(prons@) =~= fv.map_values(|f: FactView| f.pron));
            assert(strs_view(means@) =~= fv.map_values(|f: FactView| f.meaning));
            reveal_strlit("");
            reveal_strlit("-");
            assert(""@ =~= Seq::<char>::empty());
            assert("-"@ =~= seq!['-']);
        }
        let prompt = join_strings(&exprs, "");
        let pronunciation = join_strings(&prons, "-");
        let meaning = join_strings(&means, "");
        let r = AskOutcome { prompt, pronunciation, meaning, kind_label: None, composition: None };
        proof {
            assert(r@ =~= spec_ask_generated(fv));
            assert(gen_rel(self@.shards, fv) && r@ == spec_ask_generated(fv));
        }
        r
    }
}

/// Mathematical view of a question of any variant.
pub enum QuestionView {
    Single(FactView),
    Multiple(MultiView),
    Generated(GeneratedView),
}

/// A question of one of the three variants, dispatching `ask` and `weight`.
#[derive(Debug)]
pub enum Question {
    Single(QuestionSingle),
    Multiple(QuestionMultiple),
    Generated(QuestionGenerated),
}

impl View for Question {
    type V = QuestionView;

    open spec fn view(&self) -> QuestionView {
        match self {
            Question::Single(q) => QuestionView::Single(q@),
            Question::Multiple(q) => QuestionView::Multiple(q@),
            Question::Generated(q) => QuestionView::Generated(q@),
        }
    }
}

/// Selection weight: plain records weigh one, a generative question twice
/// its shard count.
pub open spec fn spec_weight(q: QuestionView) -> int {
    match q {
        QuestionView::Single(_) => 1,
        QuestionView::Multiple(_) => 1,
        QuestionView::Generated(g) => 2 * (g.shards.len() as int),
    }
}

/// The question can be asked without running into an empty shard.
pub open spec fn spec_askable(q: QuestionView) -> bool {
    match q {
        QuestionView::Generated(g) => askable(g.shards),
        _ => true,
    }
}

/// What an ask of `q` may render.
pub open spec fn ask_rel(q: QuestionView, a: AskView) -> bool {
    match q {
        QuestionView::Single(f) => a == spec_ask_single(f),
        QuestionView::Multiple(m) => a == spec_ask_multiple(m),
        QuestionView::Generated(g) => exists|facts: Seq<FactView>|
            gen_rel(g.shards, facts) && a == spec_ask_generated(facts),
    }
}

impl Question {
    /// Selection weight of the question.
    pub fn weight(&self) -> (r: usize)
        requires
            spec_weight(self@) <= usize::MAX,
        ensures
            r == spec_weight(self@),
    {
        match self {
            Question::Single(q) => q.weight(),
            Question::Multiple(q) => q.weight(),
            Question::Generated(q) => q.weight(),
        }
    }

    /// Renders the question, drawing fresh random picks where the variant
    /// generates its content.
    pub fn ask(&self, rng: &mut rand::rngs::StdRng) -> (r: AskOutcome)
        requires
            spec_askable(self@),
        ensures
            ask_rel(self@, r@),
    {
        match self {
            Question::Single(q) => q.ask(),
            Question::Multiple(q) => q.ask(),
            Question::Generated(q) => q.ask(rng),
        }
    }
}

/// Which record parser a file is read with.
#[derive(Clone, Copy, Debug, PartialEq, Eq, Structural)]
pub enum ParserKind {
    Single,
    Multiple,
    Generated,
}

/// One parse attempt at `pos` with the chosen parser: the question read, if
/// any, and the next position; every parser consumes at least one line.
pub open spec fn spec_parse_question(kind: ParserKind, lines: Seq<Seq<char>>, pos: int) -> (
    Option<QuestionView>,
    int,
) {
    match kind {
        ParserKind::Single => (
            match spec_parse_fact(lines[pos]) {
                Some(f) => Some(QuestionView::Single(f)),
                None => None,
            },
            pos + 1,
        ),
        ParserKind::Multiple => (
            match spec_parse_multi(lines[pos]) {
                Some(m) => Some(QuestionView::Multiple(m)),
                None => None,
            },
            pos + 1,
        ),
        ParserKind::Generated => {
            let (g, np) = spec_parse_gen(lines, pos);
            (
                match g {
                    Some(gv) => Some(QuestionView::Generated(gv)),
                    None => None,
                },
                np,
            )
        },
    }
}

/// Runs one parse attempt of the chosen parser at `pos`.
pub fn parse_from_iter(kind: ParserKind, lines: &Vec<String>, pos: usize) -> (r: (
    Option<Question>,
    usize,
))
    requires
        pos < lines@.len(),
        kind is Generated ==> gen_block_ok(strs_view(lines@), pos as int),
    ensures
        ({
            let (q, np) = spec_parse_question(kind, strs_view(lines@), pos as int);
            &&& (r.0 matches Some(x) ==> q == Some(x@))
            &&& (r.0 is None ==> q is None)
            &&& r.1 == np
        }),
        pos < r.1 <= lines@.len(),
{
    proof {
        assert(strs_view(lines@)[pos as int] == lines@[pos as int]@);
    }
    match kind {
        ParserKind::Single => {
            let (q, np) = QuestionSingle::parse(lines, pos);
            (
                match q {
                    Some(x) => Some(Question::Single(x)),
                    None => None,
                },
                np,
            )
        },
        ParserKind::Multiple => {
            let (q, np) = QuestionMultiple::parse(lines, pos);
            (
                match q {
                    Some(x) => Some(Question::Multiple(x)),
                    None => None,
                },
                np,
            )
        },
        ParserKind::Generated => {
            let (q, np) = QuestionGenerated::parse(lines, pos);
            (
                match q {
                    Some(x) => Some(Question::Generated(x)),
                    None => None,
                },
                np,
            )
        },
    }
}

} // verus!
