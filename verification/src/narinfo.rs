use vstd::prelude::*;

use crate::errors::ErrorKind;
use crate::spec_token_id;
use crate::strutil::{
    find_char, find_sep, find_ws, is_ws, lemma_spec_find, lemma_spec_find_sep, lemma_spec_find_ws,
    spec_find, spec_find_sep, spec_find_ws, str_eq,
};

verus! {

/// Parsed representation of one package's metadata document.
#[derive(Debug, Clone, PartialEq)]
pub struct NarinfoDoc {
    /// The content blob's location relative to the cache base.
    pub content_url: String,
    /// The digest part of the `FileHash` entry, after the algorithm tag.
    pub content_digest: String,
    /// The package identifiers named by the `References` entry.
    pub references: Vec<String>,
}

/// The abstract accumulator of a line-by-line parse: the last `URL` value,
/// the last `FileHash` digest (`None` when absent or malformed), and the
/// identifiers of the last `References` value.
pub struct ParseState {
    pub url: Option<Seq<char>>,
    pub hash: Option<Seq<char>>,
    pub refs: Seq<Seq<char>>,
}

/// A line with one carriage return stripped from its end: what a reader of
/// `\r\n`-terminated documents sees.
pub open spec fn strip_cr(l: Seq<char>) -> Seq<char> {
    if l.len() > 0 && l[l.len() - 1] == '\r' {
        l.drop_last()
    } else {
        l
    }
}

/// The lines of `t`, delimited by `\n`, each shorn of one carriage return
/// before the delimiter; a trailing newline ends the last line rather than
/// opening an empty one, and a final line without a delimiter is kept whole.
pub open spec fn spec_lines(t: Seq<char>) -> Seq<Seq<char>>
    decreases t.len(),
    via spec_lines_dec
{
    if t.len() == 0 {
        Seq::empty()
    } else {
        match spec_find(t, '\n') {
            Option::None => seq![t],
            Option::Some(i) => seq![strip_cr(t.take(i))] + spec_lines(t.skip(i + 1)),
        }
    }
}

#[via_fn]
proof fn spec_lines_dec(t: Seq<char>) {
    if t.len() != 0 {
        lemma_spec_find(t, '\n');
    }
}

/// The whitespace-separated tokens of `v`.
pub open spec fn spec_split_ws(v: Seq<char>) -> Seq<Seq<char>>
    decreases v.len(),
    via spec_split_ws_dec
{
    if v.len() == 0 {
        Seq::empty()
    } else if is_ws(v[0]) {
        spec_split_ws(v.skip(1))
    } else {
        match spec_find_ws(v) {
            Option::None => seq![v],
            Option::Some(e) => seq![v.take(e)] + spec_split_ws(v.skip(e)),
        }
    }
}

#[via_fn]
proof fn spec_split_ws_dec(v: Seq<char>) {
    if v.len() != 0 && !is_ws(v[0]) {
        lemma_spec_find_ws(v);
    }
}

/// The package identifiers named by a `References` value: each token reduced
/// to its part before the first `-`.
pub open spec fn spec_ref_ids(v: Seq<char>) -> Seq<Seq<char>> {
    spec_split_ws(v).map(|i: int, t: Seq<char>| spec_token_id(t))
}

/// The digest part of a `FileHash` value: everything after the first `:`,
/// or nothing when the value has no colon.
pub open spec fn spec_hash_part(v: Seq<char>) -> Option<Seq<char>> {
    match spec_find(v, ':') {
        Option::None => Option::None,
        Option::Some(i) => Option::Some(v.skip(i + 1)),
    }
}

/// The accumulator before any line has been read.
pub open spec fn spec_empty_state() -> ParseState {
    ParseState { url: Option::None, hash: Option::None, refs: Seq::empty() }
}

/// One line folded into the accumulator: `None` when the line lacks the
/// `": "` separator, the updated accumulator otherwise. The last occurrence
/// of a recognized key wins; unrecognized keys change nothing.
pub open spec fn spec_apply_line(st: ParseState, l: Seq<char>) -> Option<ParseState> {
    match spec_find_sep(l) {
        Option::None => Option::None,
        Option::Some(i) => {
            let k = l.take(i);
            let v = l.skip(i + 2);
            if k == "URL"@ {
                Option::Some(ParseState { url: Option::Some(v), hash: st.hash, refs: st.refs })
            } else if k == "References"@ {
                Option::Some(ParseState { url: st.url, hash: st.hash, refs: spec_ref_ids(v) })
            } else if k == "FileHash"@ {
                Option::Some(ParseState { url: st.url, hash: spec_hash_part(v), refs: st.refs })
            } else {
                Option::Some(st)
            }
        },
    }
}

/// All of `ls` folded into the accumulator, stopping at the first malformed line.
pub open spec fn spec_fold_lines(st: ParseState, ls: Seq<Seq<char>>) -> Option<ParseState>
    decreases ls.len(),
{
    if ls.len() == 0 {
        Option::Some(st)
    } else {
        match spec_apply_line(st, ls[0]) {
            Option::None => Option::None,
            Option::Some(st2) => spec_fold_lines(st2, ls.skip(1)),
        }
    }
}

/// The abstract parse of a whole metadata text: `None` when some line is
/// malformed, the final accumulator otherwise.
pub open spec fn spec_parse(t: Seq<char>) -> Option<ParseState> {
    spec_fold_lines(spec_empty_state(), spec_lines(t))
}

/// Folding all lines equals folding a prefix, then folding the rest from there.
proof fn lemma_fold_split(st: ParseState, ls: Seq<Seq<char>>, k: int)
    requires
        0 <= k <= ls.len(),
    ensures
        spec_fold_lines(st, ls) == (match spec_fold_lines(st, ls.take(k)) {
            Option::None => Option::<ParseState>::None,
            Option::Some(st2) => spec_fold_lines(st2, ls.skip(k)),
        }),
    decreases k,
{
    if k == 0 {
        assert(ls.take(0) =~= Seq::<Seq<char>>::empty());
        assert(ls.skip(0) =~= ls);
    } else {
        assert(ls.take(k)[0] == ls[0]);
        match spec_apply_line(st, ls[0]) {
            Option::None => {},
            Option::Some(st2) => {
                lemma_fold_split(st2, ls.skip(1), k - 1);
                assert(ls.skip(1).take(k - 1) =~= ls.take(k).skip(1));
                assert(ls.skip(1).skip(k - 1) =~= ls.skip(k));
            },
        }
    }
}

/// Folding one more line applies that line to the fold of the lines before it.
proof fn lemma_fold_step(st: ParseState, ls: Seq<Seq<char>>, i: int)
    requires
        0 <= i < ls.len(),
    ensures
        spec_fold_lines(st, ls.take(i + 1)) == (match spec_fold_lines(st, ls.take(i)) {
            Option::None => Option::<ParseState>::None,
            Option::Some(a) => spec_apply_line(a, ls[i]),
        }),
{
    lemma_fold_split(st, ls.take(i + 1), i);
    assert(ls.take(i + 1).take(i) =~= ls.take(i));
    assert(ls.take(i + 1).skip(i) =~= seq![ls[i]]);
    let s1 = seq![ls[i]];
    assert(s1[0] == ls[i]);
    match spec_fold_lines(st, ls.take(i)) {
        Option::None => {},
        Option::Some(a) => {
            match spec_apply_line(a, ls[i]) {
                Option::None => {
                    assert(spec_fold_lines(a, s1) is None);
                },
                Option::Some(b) => {
                    assert(s1.skip(1) =~= Seq::<Seq<char>>::empty());
                    assert(spec_fold_lines(b, s1.skip(1)) == Option::Some(b));
                    assert(spec_fold_lines(a, s1) == Option::Some(b));
                },
            }
        },
    }
}

/// A malformed line anywhere makes the whole fold fail.
proof fn lemma_fold_dies(st: ParseState, ls: Seq<Seq<char>>, i: int)
    requires
        0 <= i < ls.len(),
        spec_fold_lines(st, ls.take(i)) matches Option::Some(a) && spec_apply_line(a, ls[i])
            is None,
    ensures
        spec_fold_lines(st, ls) is None,
{
    lemma_fold_split(st, ls, i);
    let a = spec_fold_lines(st, ls.take(i))->Some_0;
    assert(ls.skip(i)[0] == ls[i]);
    assert(spec_fold_lines(a, ls.skip(i)) is None);
}

/// The text cut into lines.
fn split_lines(text: &str) -> (r: Vec<String>)
    ensures
        r.deep_view() == spec_lines(text@),
{
    let n = text.unicode_len();
    let mut out: Vec<String> = Vec::new();
    let mut pos: usize = 0;
    proof {
        assert(out.deep_view() =~= Seq::<Seq<char>>::empty());
        assert(text@.skip(0) =~= text@);
        assert(Seq::<Seq<char>>::empty() + spec_lines(text@) =~= spec_lines(text@));
    }
    while pos < n
        invariant
            n == text@.len(),
            pos <= n,
            out.deep_view() + spec_lines(text@.skip(pos as int)) == spec_lines(text@),
        decreases n - pos,
    {
        let ghost prev = out.deep_view();
        let ghost v = text@.skip(pos as int);
        let rest = text.substring_char(pos, n);
        proof {
            assert(rest@ =~= v);
            lemma_spec_find(v, '\n');
        }
        match find_char(rest, '\n') {
            Option::Some(i) => {
                let line = if i > 0 && rest.get_char(i - 1) == '\r' {
                    rest.substring_char(0, i - 1)
                } else {
                    rest.substring_char(0, i)
                };
                out.push(line.to_owned());
                proof {
                    assert(out.deep_view() =~= prev.push(line@));
                    assert(v.take(i as int).len() == i as int);
                    if i > 0 && v[i - 1] == '\r' {
                        assert(v.take(i as int)[i - 1] == v[i - 1]);
                        assert(v.take(i as int).drop_last() =~= v.take(i as int - 1));
                        assert(strip_cr(v.take(i as int)) == line@);
                    } else {
                        assert(strip_cr(v.take(i as int)) == line@);
                    }
                    assert(v.skip(i + 1) =~= text@.skip(pos + i + 1));
                    assert(spec_lines(v) == seq![line@] + spec_lines(v.skip(i + 1)));
                    assert(prev.push(line@) + spec_lines(text@.skip(pos + i + 1)) =~= prev + (
                    seq![line@] + spec_lines(v.skip(i + 1))));
                }
                pos = pos + i + 1;
            },
            Option::None => {
                out.push(rest.to_owned());
                proof {
                    assert(out.deep_view() =~= prev.push(v));
                    assert(spec_lines(v) == seq![v]);
                    assert(text@.skip(n as int) =~= Seq::<char>::empty());
                    assert(prev.push(v) + spec_lines(text@.skip(n as int)) =~= prev + seq![v]);
                }
                pos = n;
            },
        }
    }
    proof {
        assert(text@.skip(n as int) =~= Seq::<char>::empty());
        assert(out.deep_view() + Seq::<Seq<char>>::empty() =~= out.deep_view());
    }
    out
}

/// The identifiers named by a `References` value, in order of appearance.
fn parse_refs(val: &str) -> (r: Vec<String>)
    ensures
        r.deep_view() == spec_ref_ids(val@),
{
    let n = val.unicode_len();
    let mut out: Vec<String> = Vec::new();
    let mut p: usize = 0;
    proof {
        assert(out.deep_view() =~= Seq::<Seq<char>>::empty());
        assert(val@.skip(0) =~= val@);
        assert(Seq::<Seq<char>>::empty() + spec_ref_ids(val@) =~= spec_ref_ids(val@));
    }
    while p < n
        invariant
            n == val@.len(),
            p <= n,
            out.deep_view() + spec_ref_ids(val@.skip(p as int)) == spec_ref_ids(val@),
        decreases n - p,
    {
        let ghost prev = out.deep_view();
        let ghost v = val@.skip(p as int);
        if crate::strutil::char_is_ws(val.get_char(p)) {
            proof {
                assert(v[0] == val@[p as int]);
                assert(v.skip(1) =~= val@.skip(p as int + 1));
                assert(spec_ref_ids(v) == spec_ref_ids(v.skip(1)));
            }
            p = p + 1;
        } else {
            let rest = val.substring_char(p, n);
            proof {
                assert(rest@ =~= v);
                lemma_spec_find_ws(v);
            }
            let token_end = match find_ws(rest) {
                Option::Some(m) => m,
                Option::None => n - p,
            };
            let token = rest.substring_char(0, token_end);
            let id = match crate::filename_to_narinfo_hash(token) {
                Ok(s) => s.to_owned(),
                Err(_) => {
                    proof {
                        assert(false);
                    }
                    String::new()
                },
            };
            out.push(id);
            proof {
                assert(out.deep_view() =~= prev.push(id@));
                if token_end < n - p {
                    assert(spec_split_ws(v) == seq![v.take(token_end as int)] + spec_split_ws(
                        v.skip(token_end as int),
                    ));
                    assert(v.skip(token_end as int) =~= val@.skip(p + token_end));
                    assert(spec_split_ws(v) == seq![token@] + spec_split_ws(
                        val@.skip(p + token_end),
                    ));
                    assert(spec_ref_ids(v) =~= seq![id@] + spec_ref_ids(val@.skip(p + token_end)));
                    assert(prev.push(id@) + spec_ref_ids(val@.skip(p + token_end)) =~= prev + (
                    seq![id@] + spec_ref_ids(val@.skip(p + token_end))));
                } else {
                    assert(token@ =~= v);
                    assert(spec_split_ws(v) == seq![v]);
                    assert(spec_ref_ids(v) =~= seq![id@]);
                    assert(val@.skip(n as int) =~= Seq::<char>::empty());
                    assert(spec_split_ws(Seq::<char>::empty()) == Seq::<Seq<char>>::empty());
                    assert(spec_ref_ids(Seq::<char>::empty()) =~= Seq::<Seq<char>>::empty());
                    assert(prev.push(id@) + spec_ref_ids(val@.skip(n as int)) =~= prev + seq![id@]);
                }
            }
            p = p + token_end;
        }
    }
    proof {
        assert(val@.skip(n as int) =~= Seq::<char>::empty());
        assert(spec_split_ws(Seq::<char>::empty()) == Seq::<Seq<char>>::empty());
        assert(spec_ref_ids(Seq::<char>::empty()) =~= Seq::<Seq<char>>::empty());
        assert(out.deep_view() + Seq::<Seq<char>>::empty() =~= out.deep_view());
    }
    out
}

/// The accumulator that the executable parse carries, as an abstract value.
pub open spec fn state_of(url: Option<String>, hash: Option<String>, refs: Vec<String>) -> ParseState {
    ParseState { url: url.deep_view(), hash: hash.deep_view(), refs: refs.deep_view() }
}

/// Parses a metadata document: newline-delimited `key: value` records, where
/// the recognized keys are `URL`, `References` and `FileHash`, the last
/// occurrence of a key wins, and unrecognized keys are ignored. Fails with a
/// parse error when some line lacks the `": "` separator, or when `URL` or
/// `FileHash` is missing; an absent `References` is an empty reference list.
pub fn parse_narinfo(text: &str) -> (r: Result<NarinfoDoc, ErrorKind>)
    ensures
        r is Ok <==> (spec_parse(text@) matches Option::Some(st) && st.url is Some
            && st.hash is Some),
        r is Ok ==> (spec_parse(text@) matches Option::Some(st)
            && r->Ok_0.content_url@ == st.url->Some_0 && r->Ok_0.content_digest@ == st.hash->Some_0
            && r->Ok_0.references.deep_view() == st.refs),
        r is Err ==> r->Err_0 == ErrorKind::Parse,
{
    let lines = split_lines(text);
    let ghost ls = spec_lines(text@);
    let mut url: Option<String> = Option::None;
    let mut hash: Option<String> = Option::None;
    let mut refs: Vec<String> = Vec::new();
    let n = lines.len();
    proof {
        assert(ls.take(0) =~= Seq::<Seq<char>>::empty());
        assert(refs.deep_view() =~= Seq::<Seq<char>>::empty());
        assert(state_of(url, hash, refs) == spec_empty_state());
    }
    let mut i: usize = 0;
    while i < n
        invariant
            n == lines@.len(),
            lines.deep_view() == ls,
            ls == spec_lines(text@),
            i <= n,
            spec_fold_lines(spec_empty_state(), ls.take(i as int)) == Option::Some(
                state_of(url, hash, refs),
            ),
        decreases n - i,
    {
        let ghost pre = state_of(url, hash, refs);
        let line = &lines[i];
        proof {
            assert(lines.deep_view()[i as int] == line@);
            lemma_spec_find_sep(line@);
        }
        match find_sep(line.as_str()) {
            Option::None => {
                proof {
                    lemma_fold_dies(spec_empty_state(), ls, i as int);
                }
                return Err(ErrorKind::Parse);
            },
            Option::Some(j) => {
                let llen = line.as_str().unicode_len();
                let key = line.as_str().substring_char(0, j);
                let val = line.as_str().substring_char(j + 2, llen);
                proof {
                    assert(key@ == line@.take(j as int));
                    assert(val@ == line@.skip(j + 2));
                }
                if str_eq(key, "URL") {
                    url = Option::Some(val.to_owned());
                } else if str_eq(key, "References") {
                    refs = parse_refs(val);
                } else if str_eq(key, "FileHash") {
                    proof {
                        lemma_spec_find(val@, ':');
                    }
                    let vlen = val.unicode_len();
                    hash = match find_char(val, ':') {
                        Option::Some(m) => Option::Some(val.substring_char(m + 1, vlen).to_owned()),
                        Option::None => Option::None,
                    };
                }
                proof {
                    assert(spec_apply_line(pre, ls[i as int]) == Option::Some(
                        state_of(url, hash, refs),
                    ));
                    lemma_fold_step(spec_empty_state(), ls, i as int);
                }
                i += 1;
            },
        }
    }
    proof {
        assert(ls.take(n as int) =~= ls);
    }
    match (url, hash) {
        (Option::Some(u), Option::Some(h)) => Ok(
            NarinfoDoc { content_url: u, content_digest: h, references: refs },
        ),
        (u, h) => {
            proof {
                assert(state_of(u, h, refs).url is None || state_of(u, h, refs).hash is None);
            }
            Err(ErrorKind::Parse)
        },
    }
}

} // verus!
