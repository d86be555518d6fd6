//! Question files: the dispatcher that parses one file's lines, and the
//! directory listing paired with its manifest descriptions.

use vstd::prelude::*;
use vstd::string::StringExecFns;
use vstd::string::StrSliceExecFns;
use crate::questions::{
    Question, QuestionGenerated, QuestionView, ParserKind, strs_view, spec_parse_question,
    gen_block_ok, gb_line,
};

verus! {

/// Error of reading a question file.
#[derive(Clone, Copy, Debug, PartialEq, Eq, Structural)]
pub enum ReadError {
    EmptyFile,
}

/// The first line announces a generator-block file.
pub open spec fn starts_generated(lines: Seq<Seq<char>>) -> bool {
    lines.len() > 0 && lines[0].len() >= 2 && lines[0][0] == 'G' && lines[0][1] == 'B'
}

/// Which parser the dispatcher settles on for a whole file: the
/// generator-block parser exactly when the first line starts with its begin
/// sentinel, else the requested record parser.
pub open spec fn chosen_kind(lines: Seq<Seq<char>>, requested: ParserKind) -> ParserKind {
    if starts_generated(lines) {
        ParserKind::Generated
    } else {
        requested
    }
}

/// All questions parsed from `pos` on: one attempt per record, a failed
/// attempt produces nothing, and every attempt consumes at least one line.
pub open spec fn spec_read_from(lines: Seq<Seq<char>>, pos: int, kind: ParserKind) -> Seq<
    QuestionView,
>
    decreases lines.len() - pos,
        when 0 <= pos
{
    if pos >= lines.len() {
        Seq::empty()
    } else {
        let (q, np) = spec_parse_question(kind, lines, pos);
        let np1 = if np > pos {
            np
        } else {
            pos + 1
        };
        let np2 = if np1 > lines.len() {
            lines.len() as int
        } else {
            np1
        };
        (match q {
            Some(v) => seq![v],
            None => Seq::<QuestionView>::empty(),
        }) + spec_read_from(lines, np2, kind)
    }
}

/// Every generator block of the stream parses; trivial for the plain record
/// kinds.
pub open spec fn stream_ok(lines: Seq<Seq<char>>, pos: int, kind: ParserKind) -> bool
    decreases lines.len() - pos,
        when 0 <= pos
{
    if pos >= lines.len() {
        true
    } else {
        (kind is Generated ==> gen_block_ok(lines, pos)) && {
            let (q, np) = spec_parse_question(kind, lines, pos);
            let np1 = if np > pos {
                np
            } else {
                pos + 1
            };
            let np2 = if np1 > lines.len() {
                lines.len() as int
            } else {
                np1
            };
            stream_ok(lines, np2, kind)
        }
    }
}

/// The views of a sequence of questions.
pub open spec fn questions_view(v: Seq<Question>) -> Seq<QuestionView> {
    v.map_values(|q: Question| q@)
}

/// Parses a whole file's lines. The parse strategy is decided once, by the
/// first line alone: a file opening with the generator begin sentinel is
/// read entirely with the generator-block parser, any other file entirely
/// with the requested record parser. An empty file is an error, not an
/// empty result.
pub fn read_questions(lines: &Vec<String>, requested: ParserKind) -> (r: Result<
    Vec<Question>,
    ReadError,
>)
    requires
        requested is Single || requested is Multiple,
        starts_generated(strs_view(lines@)) ==> stream_ok(
            strs_view(lines@),
            0,
            ParserKind::Generated,
        ),
    ensures
        lines@.len() == 0 <==> r is Err,
        r matches Err(e) ==> e == ReadError::EmptyFile,
        r matches Ok(qs) ==> questions_view(qs@) == spec_read_from(
            strs_view(lines@),
            0,
            chosen_kind(strs_view(lines@), requested),
        ),
{
    let ghost lv = strs_view(lines@);
    let n = lines.len();
    if n == 0 {
        return Err(ReadError::EmptyFile);
    }
    proof {
        assert(lv[0] == lines@[0]@);
    }
    let first = lines[0].as_str();
    let mut is_gen = false;
    if first.unicode_len() >= 2 {
        is_gen = first.get_char(0) == 'G' && first.get_char(1) == 'B';
    }
    let kind = if is_gen {
        ParserKind::Generated
    } else {
        requested
    };
    let ghost ck = chosen_kind(lv, requested);
    proof {
        assert(kind == ck);
    }
    let mut out: Vec<Question> = Vec::new();
    let mut pos: usize = 0;
    proof {
        assert(questions_view(out@) =~= Seq::<QuestionView>::empty());
        assert(questions_view(out@) + spec_read_from(lv, 0, ck) =~= spec_read_from(lv, 0, ck));
    }
    while pos < n
        invariant
            0 <= pos <= n,
            n == lines@.len(),
            lv == strs_view(lines@),
            kind == ck,
            ck is Generated ==> stream_ok(lv, pos as int, ck),
            spec_read_from(lv, 0, ck) == questions_view(out@) + spec_read_from(lv, pos as int, ck),
        decreases n - pos,
    {
        let ghost old_out = out@;
        let ghost old_pos = pos as int;
        proof {
            if ck is Generated {
                assert(gen_block_ok(lv, old_pos));
            }
        }
        let attempt = crate::questions::parse_from_iter(kind, lines, pos);
        let q_opt = attempt.0;
        let npos = attempt.1;
        let ghost step = spec_parse_question(ck, lv, old_pos);
        let ghost piece: Seq<QuestionView> = match step.0 {
            Some(v) => seq![v],
            None => Seq::empty(),
        };
        match q_opt {
            Some(q) => {
                out.push(q);
                proof {
                    assert(questions_view(out@) =~= questions_view(old_out) + piece);
                }
            },
            None => {
                proof {
                    assert(questions_view(out@) =~= questions_view(old_out) + piece);
                }
            },
        }
        pos = npos;
        proof {
            assert(step.1 == pos as int);
            assert(spec_read_from(lv, old_pos, ck) == piece + spec_read_from(lv, pos as int, ck));
            assert(questions_view(old_out) + (piece + spec_read_from(lv, pos as int, ck))
                =~= questions_view(out@) + spec_read_from(lv, pos as int, ck));
        }
    }
    proof {
        assert(spec_read_from(lv, pos as int, ck) =~= Seq::<QuestionView>::empty());
        assert(questions_view(out@) + Seq::<QuestionView>::empty() =~= questions_view(out@));
    }
    Ok(out)
}

/// Whether the dispatcher may read these lines: every generator block of
/// the stream parses. A caller that cannot know this otherwise tests it
/// here before `read_questions`.
pub fn check_gen_stream(lines: &Vec<String>) -> (r: bool)
    ensures
        r == stream_ok(strs_view(lines@), 0, ParserKind::Generated),
{
    let ghost lv = strs_view(lines@);
    let n = lines.len();
    let gb = String::from_str("GB");
    proof {
        reveal_strlit("GB");
        assert(gb@ =~= gb_line());
    }
    let mut pos: usize = 0;
    while pos < n
        invariant
            0 <= pos <= n,
            n == lines@.len(),
            lv == strs_view(lines@),
            gb@ == gb_line(),
            stream_ok(lv, 0, ParserKind::Generated) == stream_ok(
                lv,
                pos as int,
                ParserKind::Generated,
            ),
        decreases n - pos,
    {
        let ghost old_pos = pos as int;
        proof {
            assert(lv[old_pos] == lines@[old_pos]@);
        }
        if lines[pos] == gb {
            match QuestionGenerated::scan_block(lines, pos) {
                Some(end) => {
                    proof {
                        assert(gen_block_ok(lv, old_pos));
                        let step = spec_parse_question(ParserKind::Generated, lv, old_pos);
                        assert(step.1 == end as int);
                        assert(stream_ok(lv, old_pos, ParserKind::Generated) == stream_ok(
                            lv,
                            end as int,
                            ParserKind::Generated,
                        ));
                    }
                    pos = end;
                },
                None => {
                    proof {
                        assert(!gen_block_ok(lv, old_pos));
                        assert(!stream_ok(lv, old_pos, ParserKind::Generated));
                    }
                    return false;
                },
            }
        } else {
            proof {
                assert(gen_block_ok(lv, old_pos));
                let step = spec_parse_question(ParserKind::Generated, lv, old_pos);
                assert(step.1 == old_pos + 1);
                assert(stream_ok(lv, old_pos, ParserKind::Generated) == stream_ok(
                    lv,
                    old_pos + 1,
                    ParserKind::Generated,
                ));
            }
            pos = pos + 1;
        }
    }
    true
}

/// Mathematical view of a listed question file.
#[verifier::ext_equal]
pub struct FileView {
    pub name: Seq<char>,
    pub desc: Option<Seq<char>>,
}

/// A directory entry paired with the manifest description at its position,
/// where the manifest has one.
#[derive(Debug)]
pub struct QuestionFile {
    pub name: String,
    pub desc: Option<String>,
}

impl View for QuestionFile {
    type V = FileView;

    open spec fn view(&self) -> FileView {
        FileView {
            name: self.name@,
            desc: match self.desc {
                Some(d) => Some(d@),
                None => None,
            },
        }
    }
}

impl QuestionFile {
    /// The entry's file name.
    pub fn filename(&self) -> (r: Option<String>)
        ensures
            r matches Some(s) && s@ == self@.name,
    {
        Some(self.name.clone())
    }

    /// The entry's description from the manifest, if it had one at this
    /// position.
    pub fn desc(&self) -> (r: &Option<String>)
        ensures
            (r matches Some(s) ==> self@.desc == Some(s@)),
            (r is None ==> self@.desc is None),
    {
        &self.desc
    }

    /// Builds an entry from a manifest line paired with its file name.
    pub fn from_line(pair: (String, &String)) -> (r: Self)
        ensures
            r@.name == pair.1@,
            r@.desc == Some(pair.0@),
    {
        let (line, name) = pair;
        QuestionFile { name: name.clone(), desc: Some(line) }
    }
}

/// The required manifest file name.
pub open spec fn manifest_name() -> Seq<char> {
    "_desc.txt"@
}

/// Hands the name back exactly when it is the manifest's.
pub fn desc_file_check(name: String) -> (r: Option<String>)
    ensures
        name@ == manifest_name() ==> (r matches Some(s) && s@ == name@),
        name@ != manifest_name() ==> r is None,
{
    let m = String::from_str("_desc.txt");
    if name == m {
        Some(name)
    } else {
        None
    }
}

/// Pure core of the directory listing: the last directory entry must be the
/// manifest, else nothing is listed. Every other entry is listed in order;
/// entry `i` carries manifest line `i` where the manifest has one, and no
/// description at all otherwise — never a wrong file's line.
pub fn list_files(names: &Vec<String>, desc_lines: &Vec<String>) -> (r: Option<Vec<QuestionFile>>)
    ensures
        (names@.len() == 0 || names@.last()@ != manifest_name()) <==> r is None,
        r matches Some(fs) ==> {
            &&& fs@.len() == names@.len() - 1
            &&& forall|i: int| 0 <= i < fs@.len() ==> (#[trigger] fs@[i])@.name == names@[i]@
            &&& forall|i: int|
                0 <= i < fs@.len() ==> (#[trigger] fs@[i])@.desc == (if i < desc_lines@.len() {
                    Some(desc_lines@[i]@)
                } else {
                    None::<Seq<char>>
                })
        },
{
    let n = names.len();
    if n == 0 {
        return None;
    }
    let manifest = desc_file_check(names[n - 1].clone());
    if manifest.is_none() {
        return None;
    }
    let mut fs: Vec<QuestionFile> = Vec::new();
    let mut i: usize = 0;
    while i < n - 1
        invariant
            0 <= i <= n - 1,
            n == names@.len(),
            fs@.len() == i,
            forall|k: int| 0 <= k < i ==> (#[trigger] fs@[k])@.name == names@[k]@,
            forall|k: int|
                0 <= k < i ==> (#[trigger] fs@[k])@.desc == (if k < desc_lines@.len() {
                    Some(desc_lines@[k]@)
                } else {
                    None::<Seq<char>>
                }),
        decreases n - 1 - i,
    {
        if i < desc_lines.len() {
            fs.push(QuestionFile::from_line((desc_lines[i].clone(), &names[i])));
        } else {
            fs.push(QuestionFile { name: names[i].clone(), desc: None });
        }
        i = i + 1;
    }
    Some(fs)
}

} // verus!
