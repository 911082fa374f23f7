//! A small JSON document tree, its emitter and its parser.
//!
//! Number literals are carried as their source text, uninterpreted, so that
//! a document of unknown shape survives a read/patch/write cycle verbatim.
//! String payloads are carried as the raw text between the quotes, with
//! escape pairs left as they stand.

use vstd::prelude::*;

verus! {

broadcast use vstd::std_specs::vec::axiom_vec_index_decreases;

/// An in-memory JSON value.
pub enum Json {
    Null,
    Bool(bool),
    /// The literal text of a number, e.g. `-12.5`.
    Num(String),
    /// The raw text between the quotes of a string literal.
    Str(String),
    Arr(Vec<Json>),
    Obj(Vec<(String, Json)>),
}

/// Ghost counterpart of `Json`.
#[verifier::ext_equal]
pub ghost enum JsonV {
    Null,
    Bool(bool),
    Num(Seq<char>),
    Str(Seq<char>),
    Arr(Seq<JsonV>),
    Obj(Seq<(Seq<char>, JsonV)>),
}

impl Json {
    pub open spec fn tree_view(&self) -> JsonV
        decreases self,
    {
        match self {
            Json::Null => JsonV::Null,
            Json::Bool(b) => JsonV::Bool(*b),
            Json::Num(s) => JsonV::Num(s@),
            Json::Str(s) => JsonV::Str(s@),
            Json::Arr(v) => JsonV::Arr(
                Seq::new(
                    v@.len(),
                    |i: int|
                        if 0 <= i < v@.len() {
                            v[i].tree_view()
                        } else {
                            JsonV::Null
                        },
                ),
            ),
            Json::Obj(v) => JsonV::Obj(
                Seq::new(
                    v@.len(),
                    |i: int|
                        if 0 <= i < v@.len() {
                            (v[i].0@, v[i].1.tree_view())
                        } else {
                            (Seq::empty(), JsonV::Null)
                        },
                ),
            ),
        }
    }
}

impl DeepView for Json {
    type V = JsonV;

    open spec fn deep_view(&self) -> JsonV {
        self.tree_view()
    }
}


pub open spec fn is_ws(c: char) -> bool {
    c == ' ' || c == '\n' || c == '\r' || c == '\t'
}

/// The characters a number literal may use.
pub open spec fn num_char(c: char) -> bool {
    crate::num::is_digit(c) || c == '-' || c == '+' || c == '.' || c == 'e' || c == 'E'
}

/// The characters that may follow a backslash in a string body.
pub open spec fn esc_code(c: char) -> bool {
    c == '"' || c == '\\' || c == '/' || c == 'n' || c == 't' || c == 'r' || c == 'b' || c == 'f'
}

/// The character an escape pair denotes.
pub open spec fn esc_char(c: char) -> char {
    if c == 'n' {
        '\n'
    } else if c == 't' {
        '\t'
    } else if c == 'r' {
        '\r'
    } else if c == 'b' {
        8u8 as char
    } else if c == 'f' {
        12u8 as char
    } else {
        c
    }
}

/// Raw string-body text: no bare quote, and a backslash only as the first
/// half of a supported escape pair.
pub open spec fn str_ok(s: Seq<char>) -> bool
    decreases s.len(),
{
    if s.len() == 0 {
        true
    } else if s[0] == '"' {
        false
    } else if s[0] == '\\' {
        s.len() >= 2 && esc_code(s[1]) && str_ok(s.skip(2))
    } else {
        str_ok(s.skip(1))
    }
}

/// A tree the emitter can write back unambiguously.
pub open spec fn wf(v: JsonV) -> bool
    decreases v,
{
    match v {
        JsonV::Null => true,
        JsonV::Bool(_) => true,
        JsonV::Num(lit) => lit.len() >= 1 && (crate::num::is_digit(lit[0]) || lit[0] == '-')
            && (forall|i: int| 0 <= i < lit.len() ==> num_char(#[trigger] lit[i])),
        JsonV::Str(s) => str_ok(s),
        JsonV::Arr(elems) => forall|i: int|
            0 <= i < elems.len() ==> wf(#[trigger] elems[i]),
        JsonV::Obj(entries) => forall|i: int|
            0 <= i < entries.len() ==> str_ok(#[trigger] entries[i].0) && wf(entries[i].1),
    }
}

/// The canonical text of a value: no whitespace outside string bodies.
pub open spec fn emit(v: JsonV) -> Seq<char>
    decreases v, 1int,
{
    match v {
        JsonV::Null => seq!['n', 'u', 'l', 'l'],
        JsonV::Bool(b) => if b {
            seq!['t', 'r', 'u', 'e']
        } else {
            seq!['f', 'a', 'l', 's', 'e']
        },
        JsonV::Num(lit) => lit,
        JsonV::Str(s) => seq!['"'] + s + seq!['"'],
        JsonV::Arr(elems) => seq!['['] + emit_elems(elems) + seq![']'],
        JsonV::Obj(entries) => seq!['{'] + emit_entries(entries) + seq!['}'],
    }
}

/// Comma-separated element texts.
pub open spec fn emit_elems(elems: Seq<JsonV>) -> Seq<char>
    decreases elems, 0int,
{
    if elems.len() == 0 {
        Seq::empty()
    } else if elems.len() == 1 {
        emit(elems[0])
    } else {
        emit_elems(elems.drop_last()) + seq![','] + emit(elems.last())
    }
}

/// Comma-separated `"key":value` texts.
pub open spec fn emit_entries(entries: Seq<(Seq<char>, JsonV)>) -> Seq<char>
    decreases entries, 0int,
{
    if entries.len() == 0 {
        Seq::empty()
    } else if entries.len() == 1 {
        emit_entry(entries[0])
    } else {
        emit_entries(entries.drop_last()) + seq![','] + emit_entry(entries.last())
    }
}

pub open spec fn emit_entry(entry: (Seq<char>, JsonV)) -> Seq<char>
    decreases entry, 0int,
{
    seq!['"'] + entry.0 + seq!['"', ':'] + emit(entry.1)
}


/// `s` with every quote and backslash escaped.
pub open spec fn esc(s: Seq<char>) -> Seq<char>
    decreases s.len(),
{
    if s.len() == 0 {
        Seq::empty()
    } else if s[0] == '"' {
        seq!['\\', '"'] + esc(s.skip(1))
    } else if s[0] == '\\' {
        seq!['\\', '\\'] + esc(s.skip(1))
    } else {
        seq![s[0]] + esc(s.skip(1))
    }
}

/// `s` with every supported escape pair collapsed.
pub open spec fn unesc(s: Seq<char>) -> Seq<char>
    decreases s.len(),
{
    if s.len() == 0 {
        Seq::empty()
    } else if s[0] == '\\' && s.len() >= 2 {
        seq![esc_char(s[1])] + unesc(s.skip(2))
    } else {
        seq![s[0]] + unesc(s.skip(1))
    }
}

/// Escaping always yields a well-formed string body.
pub proof fn lemma_esc_ok(s: Seq<char>)
    ensures
        str_ok(esc(s)),
    decreases s.len(),
{
    if s.len() > 0 {
        lemma_esc_ok(s.skip(1));
        if s[0] == '"' || s[0] == '\\' {
            assert(esc(s).skip(2) =~= esc(s.skip(1)));
        } else {
            assert(esc(s).skip(1) =~= esc(s.skip(1)));
        }
    }
}

/// Unescaping undoes escaping exactly, for every string.
pub proof fn lemma_unesc_esc(s: Seq<char>)
    ensures
        unesc(esc(s)) == s,
    decreases s.len(),
{
    if s.len() == 0 {
        assert(unesc(esc(s)) =~= s);
    } else {
        lemma_unesc_esc(s.skip(1));
        if s[0] == '"' || s[0] == '\\' {
            assert(esc(s).skip(2) =~= esc(s.skip(1)));
            assert(unesc(esc(s)) =~= s);
        } else {
            assert(esc(s)[0] == s[0] && esc(s)[0] != '\\');
            assert(esc(s).skip(1) =~= esc(s.skip(1)));
            assert(unesc(esc(s)) =~= s);
        }
    }
}

/// Escape every quote and backslash of `s`.
pub fn escape_str(s: &str) -> (r: String)
    ensures
        r@ == esc(s@),
{
    let n = s.unicode_len();
    let mut out = String::new();
    let mut i: usize = 0;
    proof {
        assert(s@.skip(0) =~= s@);
    }
    while i < n
        invariant
            0 <= i <= n,
            n == s@.len(),
            out@ + esc(s@.skip(i as int)) == esc(s@),
        decreases n - i,
    {
        let c = s.get_char(i);
        proof {
            assert(s@.skip(i as int)[0] == s@[i as int]);
            assert(s@.skip(i as int).skip(1) =~= s@.skip(i + 1));
        }
        if c == '"' {
            proof { reveal_strlit("\\\""); }
            out.append("\\\"");
        } else if c == '\\' {
            proof { reveal_strlit("\\\\"); }
            out.append("\\\\");
        } else {
            let piece = s.substring_char(i, i + 1);
            assert(piece@ =~= seq![s@[i as int]]);
            out.append(piece);
        }
        proof {
            assert(out@ + esc(s@.skip(i + 1)) =~= esc(s@));
        }
        i += 1;
    }
    assert(s@.skip(n as int) =~= Seq::<char>::empty());
    assert(out@ =~= esc(s@));
    out
}

/// Collapse every supported escape pair of `s`.
pub fn unescape_str(s: &str) -> (r: String)
    ensures
        r@ == unesc(s@),
{
    let n = s.unicode_len();
    let mut out = String::new();
    let mut i: usize = 0;
    proof {
        assert(s@.skip(0) =~= s@);
    }
    while i < n
        invariant
            0 <= i <= n,
            n == s@.len(),
            out@ + unesc(s@.skip(i as int)) == unesc(s@),
        decreases n - i,
    {
        let c = s.get_char(i);
        proof {
            assert(s@.skip(i as int)[0] == s@[i as int]);
            assert(s@.skip(i as int).skip(1) =~= s@.skip(i + 1));
        }
        if c == '\\' && i + 1 < n {
            proof {
                assert(s@.skip(i as int)[1] == s@[i + 1]);
                assert(s@.skip(i as int).skip(2) =~= s@.skip(i + 2));
            }
            let e = s.get_char(i + 1);
            if e == 'n' {
                proof { reveal_strlit("\n"); }
                out.append("\n");
                assert("\n"@ =~= seq![esc_char(s@[i + 1])]);
            } else if e == 't' {
                proof { reveal_strlit("\t"); }
                out.append("\t");
                assert("\t"@ =~= seq![esc_char(s@[i + 1])]);
            } else if e == 'r' {
                proof { reveal_strlit("\r"); }
                out.append("\r");
                assert("\r"@ =~= seq![esc_char(s@[i + 1])]);
            } else if e == 'b' {
                proof { reveal_strlit("\u{0008}"); }
                out.append("\u{0008}");
                assert("\u{0008}"@ =~= seq![esc_char(s@[i + 1])]);
            } else if e == 'f' {
                proof { reveal_strlit("\u{000C}"); }
                out.append("\u{000C}");
                assert("\u{000C}"@ =~= seq![esc_char(s@[i + 1])]);
            } else {
                let piece = s.substring_char(i + 1, i + 2);
                assert(piece@ =~= seq![esc_char(s@[i + 1])]);
                out.append(piece);
            }
            proof {
                assert(out@ + unesc(s@.skip(i + 2)) =~= unesc(s@));
            }
            i += 2;
        } else {
            let piece = s.substring_char(i, i + 1);
            assert(piece@ =~= seq![s@[i as int]]);
            out.append(piece);
            proof {
                assert(out@ + unesc(s@.skip(i + 1)) =~= unesc(s@));
            }
            i += 1;
        }
    }
    assert(s@.skip(n as int) =~= Seq::<char>::empty());
    assert(out@ =~= unesc(s@));
    out
}

/// Append the canonical text of `v`.
#[verifier::loop_isolation(false)]
pub fn write_json(out: &mut String, v: &Json)
    ensures
        final(out)@ == old(out)@ + emit(v.deep_view()),
    decreases v,
{
    match v {
        Json::Null => {
            proof { reveal_strlit("null"); }
            out.append("null");
            assert(out@ =~= old(out)@ + emit(v.deep_view()));
        },
        Json::Bool(b) => {
            if *b {
                proof { reveal_strlit("true"); }
                out.append("true");
            } else {
                proof { reveal_strlit("false"); }
                out.append("false");
            }
            assert(out@ =~= old(out)@ + emit(v.deep_view()));
        },
        Json::Num(lit) => {
            out.append(lit.as_str());
            assert(out@ =~= old(out)@ + emit(v.deep_view()));
        },
        Json::Str(body) => {
            proof { reveal_strlit("\""); }
            out.append("\"");
            out.append(body.as_str());
            out.append("\"");
            assert(out@ =~= old(out)@ + emit(v.deep_view()));
        },
        Json::Arr(elems) => {
            let ghost ev = v.deep_view()->Arr_0;
            proof {
                reveal_strlit("[");
                reveal_strlit("]");
                reveal_strlit(",");
            }
            out.append("[");
            let ghost head = out@;
            let mut i: usize = 0;
            while i < elems.len()
                invariant
                    0 <= i <= elems.len(),
                    ev.len() == elems.len(),
                    out@ == head + emit_elems(ev.take(i as int)),
                decreases elems.len() - i,
            {
                if i > 0 {
                    out.append(",");
                }
                assert(ev[i as int] == elems[i as int].deep_view());
                write_json(out, &elems[i]);
                proof {
                    assert(ev.take(i + 1).drop_last() =~= ev.take(i as int));
                    assert(ev.take(i + 1).last() == ev[i as int]);
                    if i == 0 {
                        assert(ev.take(1) =~= seq![ev[0]]);
                        assert(emit_elems(ev.take(1)) == emit(ev[0]));
                    }
                    assert(out@ =~= head + emit_elems(ev.take(i + 1)));
                }
                i += 1;
            }
            assert(ev.take(ev.len() as int) =~= ev);
            out.append("]");
            assert(out@ =~= old(out)@ + emit(v.deep_view()));
        },
        Json::Obj(entries) => {
            let ghost ev = v.deep_view()->Obj_0;
            proof {
                reveal_strlit("{");
                reveal_strlit("}");
                reveal_strlit(",");
                reveal_strlit("\"");
                reveal_strlit("\":");
            }
            out.append("{");
            let ghost head = out@;
            let mut i: usize = 0;
            while i < entries.len()
                invariant
                    0 <= i <= entries.len(),
                    ev.len() == entries.len(),
                    out@ == head + emit_entries(ev.take(i as int)),
                decreases entries.len() - i,
            {
                if i > 0 {
                    out.append(",");
                }
                assert(ev[i as int] == (entries[i as int].0@, entries[i as int].1.deep_view()));
                out.append("\"");
                out.append(entries[i].0.as_str());
                out.append("\":");
                write_json(out, &entries[i].1);
                proof {
                    assert(ev.take(i + 1).drop_last() =~= ev.take(i as int));
                    assert(ev.take(i + 1).last() == ev[i as int]);
                    assert(seq!['"'] + ev[i as int].0 + "\":"@ + emit(ev[i as int].1)
                        =~= emit_entry(ev[i as int]));
                    if i == 0 {
                        assert(ev.take(1) =~= seq![ev[0]]);
                        assert(emit_entries(ev.take(1)) == emit_entry(ev[0]));
                    }
                    assert(out@ =~= head + emit_entries(ev.take(i + 1)));
                }
                i += 1;
            }
            assert(ev.take(ev.len() as int) =~= ev);
            out.append("}");
            assert(out@ =~= old(out)@ + emit(v.deep_view()));
        },
    }
}

/// The canonical text of `v`.
pub fn to_text(v: &Json) -> (r: String)
    ensures
        r@ == emit(v.deep_view()),
{
    let mut out = String::new();
    write_json(&mut out, v);
    assert(out@ =~= emit(v.deep_view()));
    out
}


/// `str_ok` is closed under concatenation.
pub proof fn lemma_str_ok_concat(a: Seq<char>, b: Seq<char>)
    requires
        str_ok(a),
        str_ok(b),
    ensures
        str_ok(a + b),
    decreases a.len(),
{
    if a.len() == 0 {
        assert(a + b =~= b);
    } else if a[0] == '\\' {
        lemma_str_ok_concat(a.skip(2), b);
        assert(a.skip(2) + b =~= (a + b).skip(2));
    } else {
        lemma_str_ok_concat(a.skip(1), b);
        assert(a.skip(1) + b =~= (a + b).skip(1));
    }
}

/// A recursion index clamped into `(lo, n]`; the parser's spec functions
/// use it so that every recursive call stands on a strictly larger index.
/// On the indices the reader actually produces it is the identity.
pub open spec fn step_idx(lo: int, x: int, n: int) -> int {
    if x <= lo {
        lo + 1
    } else if x > n {
        n
    } else {
        x
    }
}

/// Index of the first non-blank character at or after `i`.
pub open spec fn spec_skip_ws(s: Seq<char>, i: int) -> int
    decreases s.len() - i,
{
    if 0 <= i < s.len() && is_ws(s[i]) {
        spec_skip_ws(s, i + 1)
    } else {
        i
    }
}

/// Index just past the closing quote of a string body starting at `i`,
/// or nothing when the body is malformed or unterminated.
pub open spec fn scan_str(s: Seq<char>, i: int) -> Option<int>
    decreases s.len() - i,
{
    if i < 0 || i >= s.len() {
        None
    } else if s[i] == '"' {
        Some(i + 1)
    } else if s[i] == '\\' {
        if i + 1 < s.len() && esc_code(s[i + 1]) {
            scan_str(s, i + 2)
        } else {
            None
        }
    } else {
        scan_str(s, i + 1)
    }
}

/// Index of the first character at or after `i` outside the number
/// alphabet.
pub open spec fn scan_num(s: Seq<char>, i: int) -> int
    decreases s.len() - i,
{
    if 0 <= i < s.len() && num_char(s[i]) {
        scan_num(s, i + 1)
    } else {
        i
    }
}

/// The value read at `i`, blanks skipped, and the index just past it.
pub open spec fn spec_value(s: Seq<char>, i: int) -> Option<(JsonV, int)>
    decreases s.len() - i, 0int,
{
    let start = spec_skip_ws(s, i);
    if start >= s.len() {
        None
    } else {
        let c = s[start];
        if c == 'n' {
            if start + 4 <= s.len() && s[start + 1] == 'u' && s[start + 2] == 'l' && s[start + 3]
                == 'l' {
                Some((JsonV::Null, start + 4))
            } else {
                None
            }
        } else if c == 't' {
            if start + 4 <= s.len() && s[start + 1] == 'r' && s[start + 2] == 'u' && s[start + 3]
                == 'e' {
                Some((JsonV::Bool(true), start + 4))
            } else {
                None
            }
        } else if c == 'f' {
            if start + 5 <= s.len() && s[start + 1] == 'a' && s[start + 2] == 'l' && s[start + 3]
                == 's' && s[start + 4] == 'e' {
                Some((JsonV::Bool(false), start + 5))
            } else {
                None
            }
        } else if c == '"' {
            match scan_str(s, start + 1) {
                Some(end) => Some((JsonV::Str(s.subrange(start + 1, end - 1)), end)),
                None => None,
            }
        } else if c == '-' || crate::num::is_digit(c) {
            let end = scan_num(s, start + 1);
            Some((JsonV::Num(s.subrange(start, end)), end))
        } else if c == '[' {
            let k = spec_skip_ws(s, start + 1);
            if k < s.len() && s[k] == ']' {
                Some((JsonV::Arr(Seq::empty()), k + 1))
            } else {
                match spec_arr_items(s, step_idx(i, k, s.len() as int), Seq::empty()) {
                    Some((elems, j)) => Some((JsonV::Arr(elems), j)),
                    None => None,
                }
            }
        } else if c == '{' {
            let k = spec_skip_ws(s, start + 1);
            if k < s.len() && s[k] == '}' {
                Some((JsonV::Obj(Seq::empty()), k + 1))
            } else {
                match spec_obj_items(s, step_idx(i, k, s.len() as int), Seq::empty()) {
                    Some((entries, j)) => Some((JsonV::Obj(entries), j)),
                    None => None,
                }
            }
        } else {
            None
        }
    }
}

/// The remaining elements of an array whose head starts at `i`, appended
/// to `acc`, and the index just past the closing bracket.
pub open spec fn spec_arr_items(s: Seq<char>, i: int, acc: Seq<JsonV>) -> Option<
    (Seq<JsonV>, int),
>
    decreases s.len() - i, 1int,
{
    if i >= s.len() {
        None
    } else {
        match spec_value(s, i) {
            None => None,
            Some((v, j)) => {
                let k = spec_skip_ws(s, j);
                if k >= s.len() {
                    None
                } else if s[k] == ',' {
                    spec_arr_items(s, step_idx(i, k + 1, s.len() as int), acc.push(v))
                } else if s[k] == ']' {
                    Some((acc.push(v), k + 1))
                } else {
                    None
                }
            },
        }
    }
}

/// The remaining entries of a field map whose head key starts at `i`,
/// appended to `acc`, and the index just past the closing brace.
pub open spec fn spec_obj_items(
    s: Seq<char>,
    i: int,
    acc: Seq<(Seq<char>, JsonV)>,
) -> Option<(Seq<(Seq<char>, JsonV)>, int)>
    decreases s.len() - i, 1int,
{
    if i >= s.len() {
        None
    } else {
        let kstart = spec_skip_ws(s, i);
        if kstart >= s.len() || s[kstart] != '"' {
            None
        } else {
            match scan_str(s, kstart + 1) {
                None => None,
                Some(kend) => {
                    let key = s.subrange(kstart + 1, kend - 1);
                    let colon = spec_skip_ws(s, kend);
                    if colon >= s.len() || s[colon] != ':' {
                        None
                    } else {
                        match spec_value(s, step_idx(i, colon + 1, s.len() as int)) {
                            None => None,
                            Some((v, j)) => {
                                let k = spec_skip_ws(s, j);
                                if k >= s.len() {
                                    None
                                } else if s[k] == ',' {
                                    spec_obj_items(
                                        s,
                                        step_idx(i, k + 1, s.len() as int),
                                        acc.push((key, v)),
                                    )
                                } else if s[k] == '}' {
                                    Some((acc.push((key, v)), k + 1))
                                } else {
                                    None
                                }
                            },
                        }
                    }
                },
            }
        }
    }
}

/// The one document a text holds: one value with nothing but blanks
/// around it.
pub open spec fn spec_doc(s: Seq<char>) -> Option<JsonV> {
    match spec_value(s, 0) {
        Some((v, j)) => if spec_skip_ws(s, j) == s.len() {
            Some(v)
        } else {
            None
        },
        None => None,
    }
}

/// Index of the first non-blank character at or after `i`.
#[verifier::loop_isolation(false)]
fn skip_blanks(s: &str, i: usize) -> (j: usize)
    requires
        i <= s@.len(),
    ensures
        i <= j <= s@.len(),
        j == spec_skip_ws(s@, i as int),
        j < s@.len() ==> !is_ws(s@[j as int]),
{
    let n = s.unicode_len();
    let mut j = i;
    while j < n
        invariant
            i <= j <= n,
            spec_skip_ws(s@, i as int) == spec_skip_ws(s@, j as int),
        decreases n - j,
    {
        let c = s.get_char(j);
        if !(c == ' ' || c == '\n' || c == '\r' || c == '\t') {
            return j;
        }
        j += 1;
    }
    j
}

/// Read a string body starting right after its opening quote; the result
/// keeps escape pairs as written. Returns the body and the index after the
/// closing quote, exactly as the scan relation reads them.
#[verifier::loop_isolation(false)]
fn scan_string_body(s: &str, i: usize) -> (r: Option<(String, usize)>)
    requires
        i <= s@.len(),
    ensures
        r matches Some((b, j)) ==> i < j <= s@.len() && scan_str(s@, i as int) == Some(j as int)
            && str_ok(b@) && b@ == s@.subrange(i as int, j - 1),
        r is None ==> scan_str(s@, i as int) is None,
{
    let n = s.unicode_len();
    let mut j = i;
    while j < n
        invariant
            i <= j <= n,
            str_ok(s@.subrange(i as int, j as int)),
            scan_str(s@, i as int) == scan_str(s@, j as int),
        decreases n - j,
    {
        let c = s.get_char(j);
        if c == '"' {
            let body = s.substring_char(i, j).to_owned();
            return Some((body, j + 1));
        } else if c == '\\' {
            if j + 1 >= n {
                return None;
            }
            let e = s.get_char(j + 1);
            if !(e == '"' || e == '\\' || e == '/' || e == 'n' || e == 't' || e == 'r' || e == 'b'
                || e == 'f') {
                // an escape this reader does not support
                return None;
            }
            proof {
                assert(str_ok(seq![s@[j as int], s@[j + 1]])) by {
                    assert(str_ok(Seq::<char>::empty()));
                    assert(seq![s@[j as int], s@[j + 1]].skip(2) =~= Seq::<char>::empty());
                }
                lemma_str_ok_concat(
                    s@.subrange(i as int, j as int),
                    seq![s@[j as int], s@[j + 1]],
                );
                assert(s@.subrange(i as int, j as int) + seq![s@[j as int], s@[j + 1]]
                    =~= s@.subrange(i as int, j + 2));
            }
            j += 2;
        } else {
            proof {
                assert(str_ok(seq![s@[j as int]])) by {
                    assert(str_ok(Seq::<char>::empty()));
                    assert(seq![s@[j as int]].skip(1) =~= Seq::<char>::empty());
                }
                lemma_str_ok_concat(s@.subrange(i as int, j as int), seq![s@[j as int]]);
                assert(s@.subrange(i as int, j as int) + seq![s@[j as int]] =~= s@.subrange(
                    i as int,
                    j + 1,
                ));
            }
            j += 1;
        }
    }
    // the text ran out before a closing quote
    None
}

/// Read one JSON value starting at `i`, tolerating blanks before and
/// inside it: exactly the value and end index the parse relation gives.
#[verifier::loop_isolation(false)]
pub fn parse_value_at(s: &str, i: usize) -> (r: Option<(Json, usize)>)
    requires
        i <= s@.len(),
    ensures
        r matches Some((v, j)) ==> i < j <= s@.len() && wf(v.deep_view()) && spec_value(
            s@,
            i as int,
        ) == Some((v.deep_view(), j as int)),
        r is None ==> spec_value(s@, i as int) is None,
    decreases s@.len() - i,
{
    let n = s.unicode_len();
    let start = skip_blanks(s, i);
    if start >= n {
        return None;
    }
    let c = s.get_char(start);
    if c == 'n' {
        if n - start >= 4 && s.get_char(start + 1) == 'u' && s.get_char(start + 2) == 'l'
            && s.get_char(start + 3) == 'l' {
            Some((Json::Null, start + 4))
        } else {
            None
        }
    } else if c == 't' {
        if n - start >= 4 && s.get_char(start + 1) == 'r' && s.get_char(start + 2) == 'u'
            && s.get_char(start + 3) == 'e' {
            Some((Json::Bool(true), start + 4))
        } else {
            None
        }
    } else if c == 'f' {
        if n - start >= 5 && s.get_char(start + 1) == 'a' && s.get_char(start + 2) == 'l'
            && s.get_char(start + 3) == 's' && s.get_char(start + 4) == 'e' {
            Some((Json::Bool(false), start + 5))
        } else {
            None
        }
    } else if c == '"' {
        match scan_string_body(s, start + 1) {
            Some((body, j)) => {
                assert(body@ == s@.subrange(start + 1, j - 1));
                Some((Json::Str(body), j))
            },
            None => None,
        }
    } else if c == '-' || (c as u32 >= 48 && c as u32 <= 57) {
        let mut j = start + 1;
        let mut stopped = false;
        while j < n && !stopped
            invariant
                start < j <= n,
                scan_num(s@, start + 1) == scan_num(s@, j as int),
                stopped ==> j < n && !num_char(s@[j as int]),
            decreases n - j, (if stopped { 0int } else { 1int }),
        {
            let d = s.get_char(j);
            if (d as u32 >= 48 && d as u32 <= 57) || d == '-' || d == '+' || d == '.' || d == 'e'
                || d == 'E' {
                j += 1;
            } else {
                stopped = true;
            }
        }
        assert(scan_num(s@, j as int) == j);
        let lit = s.substring_char(start, j).to_owned();
        assert(lit@ == s@.subrange(start as int, j as int));
        proof {
            assert(lit@[0] == s@[start as int]);
            assert(forall|k: int| 0 <= k < lit@.len() ==> num_char(#[trigger] lit@[k])) by {
                assert(forall|k: int|
                    start <= k < j ==> num_char(#[trigger] s@[k])) by {
                    lemma_scan_num_chars(s@, start + 1);
                }
                assert(forall|k: int|
                    0 <= k < lit@.len() ==> lit@[k] == s@[start + k]);
            }
        }
        Some((Json::Num(lit), j))
    } else if c == '[' {
        let cur0 = skip_blanks(s, start + 1);
        if cur0 < n && s.get_char(cur0) == ']' {
            let out: Vec<Json> = Vec::new();
            let r = Json::Arr(out);
            assert(r.deep_view()->Arr_0 =~~= Seq::<JsonV>::empty());
            assert(r.deep_view() == JsonV::Arr(Seq::<JsonV>::empty()));
            return Some((r, cur0 + 1));
        }
        assert(step_idx(i as int, cur0 as int, s@.len() as int) == cur0 as int);
        let ghost first = cur0 as int;
        let mut elems: Vec<Json> = Vec::new();
        assert(elems.deep_view() =~~= Seq::<JsonV>::empty());
        let mut cur = cur0;
        loop
            invariant
                i < cur <= n,
                n == s@.len(),
                forall|k: int| 0 <= k < elems.len() ==> wf(#[trigger] elems[k].deep_view()),
                spec_arr_items(s@, first, Seq::empty()) == spec_arr_items(
                    s@,
                    cur as int,
                    elems.deep_view(),
                ),
            decreases n - cur,
        {
            let parsed = parse_value_at(s, cur);
            match parsed {
                None => {
                    return None;
                },
                Some((v, j)) => {
                    let ghost before = elems.deep_view();
                    elems.push(v);
                    proof {
                        assert(elems.deep_view() =~~= before.push(v.deep_view()));
                    }
                    let k = skip_blanks(s, j);
                    if k >= n {
                        return None;
                    }
                    let d = s.get_char(k);
                    if d == ',' {
                        assert(step_idx(cur as int, k + 1, s@.len() as int) == k + 1);
                        cur = k + 1;
                    } else if d == ']' {
                        let r = Json::Arr(elems);
                        proof {
                            assert(r.deep_view()->Arr_0 =~~= r.deep_view()->Arr_0);
                            assert(spec_arr_items(s@, first, Seq::empty()) == Some((
                                elems.deep_view(),
                                k + 1,
                            )));
                            assert(r.deep_view()->Arr_0 =~~= elems.deep_view());
                            assert(r.deep_view() == JsonV::Arr(elems.deep_view()));
                            assert forall|q: int| 0 <= q < r.deep_view()->Arr_0.len() implies wf(
                                #[trigger] r.deep_view()->Arr_0[q],
                            ) by {
                                assert(r.deep_view()->Arr_0[q] == elems[q].deep_view());
                            }
                        }
                        return Some((r, k + 1));
                    } else {
                        return None;
                    }
                },
            }
        }
    } else if c == '{' {
        let cur0 = skip_blanks(s, start + 1);
        if cur0 < n && s.get_char(cur0) == '}' {
            let out: Vec<(String, Json)> = Vec::new();
            let r = Json::Obj(out);
            assert(r.deep_view()->Obj_0 =~~= Seq::<(Seq<char>, JsonV)>::empty());
            assert(r.deep_view() == JsonV::Obj(Seq::<(Seq<char>, JsonV)>::empty()));
            return Some((r, cur0 + 1));
        }
        assert(step_idx(i as int, cur0 as int, s@.len() as int) == cur0 as int);
        let ghost first = cur0 as int;
        let mut entries: Vec<(String, Json)> = Vec::new();
        assert(entries.deep_view() =~~= Seq::<(Seq<char>, JsonV)>::empty());
        let mut cur = cur0;
        loop
            invariant
                i < cur <= n,
                n == s@.len(),
                forall|k: int|
                    0 <= k < entries.len() ==> str_ok(#[trigger] entries[k].0@) && wf(
                        entries[k].1.deep_view(),
                    ),
                spec_obj_items(s@, first, Seq::empty()) == spec_obj_items(
                    s@,
                    cur as int,
                    entries.deep_view(),
                ),
            decreases n - cur,
        {
            let kstart = skip_blanks(s, cur);
            if kstart >= n || !(s.get_char(kstart) == '"') {
                return None;
            }
            let scanned = scan_string_body(s, kstart + 1);
            match scanned {
                None => {
                    return None;
                },
                Some((key, j)) => {
                    let colon = skip_blanks(s, j);
                    if colon >= n || !(s.get_char(colon) == ':') {
                        return None;
                    }
                    assert(step_idx(cur as int, colon + 1, s@.len() as int) == colon + 1);
                    let parsed = parse_value_at(s, colon + 1);
                    match parsed {
                        None => {
                            return None;
                        },
                        Some((v, j2)) => {
                            let ghost before = entries.deep_view();
                            let ghost keyv = key@;
                            entries.push((key, v));
                            proof {
                                assert(entries.deep_view() =~~= before.push(
                                    (keyv, v.deep_view()),
                                ));
                            }
                            let k = skip_blanks(s, j2);
                            if k >= n {
                                return None;
                            }
                            let d = s.get_char(k);
                            if d == ',' {
                                assert(step_idx(cur as int, k + 1, s@.len() as int) == k + 1);
                                cur = k + 1;
                            } else if d == '}' {
                                let r = Json::Obj(entries);
                                proof {
                                    assert(spec_obj_items(s@, first, Seq::empty()) == Some((
                                        entries.deep_view(),
                                        k + 1,
                                    )));
                                    assert(r.deep_view()->Obj_0 =~~= entries.deep_view());
                                    assert(r.deep_view() == JsonV::Obj(entries.deep_view()));
                                    assert forall|q: int|
                                        0 <= q < r.deep_view()->Obj_0.len() implies str_ok(
                                        #[trigger] r.deep_view()->Obj_0[q].0,
                                    ) && wf(r.deep_view()->Obj_0[q].1) by {
                                        assert(r.deep_view()->Obj_0[q] == (
                                            entries[q].0@,
                                            entries[q].1.deep_view(),
                                        ));
                                    }
                                }
                                return Some((r, k + 1));
                            } else {
                                return None;
                            }
                        },
                    }
                },
            }
        }
    } else {
        None
    }
}

/// Every character the number scan passes over is in the number alphabet.
proof fn lemma_scan_num_chars(s: Seq<char>, i: int)
    ensures
        forall|k: int| i <= k < scan_num(s, i) ==> num_char(#[trigger] s[k]),
    decreases s.len() - i,
{
    if 0 <= i < s.len() && num_char(s[i]) {
        lemma_scan_num_chars(s, i + 1);
    }
}

/// Read a whole document: one value with nothing but blanks after it,
/// exactly as the document relation reads it.
pub fn parse_text(s: &str) -> (r: Option<Json>)
    ensures
        r matches Some(v) ==> wf(v.deep_view()) && spec_doc(s@) == Some(v.deep_view()),
        r is None ==> spec_doc(s@) is None,
{
    match parse_value_at(s, 0) {
        Some((v, j)) => {
            let k = skip_blanks(s, j);
            if k == s.unicode_len() {
                Some(v)
            } else {
                None
            }
        },
        None => None,
    }
}

} // verus!
