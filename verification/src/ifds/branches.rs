//! Bounded, path-aware evidence for branches: the states that reach each
//! operation along feasible branch outcomes. This validates paths; it does
//! not change the distributive transfers.
use vstd::prelude::*;
use vstd::string::StringSliceAdditionalSpecFns;
use crate::ifds::ir::{EdgeKind, LiteralKind, Operation, PrimitiveOperator, ProcedureIr, find_node};
use crate::ifds::model::{
    BindingId, DefinitionId, Fact, FactView, LocalIdView, NodeId, Place, PlaceView, Source, SourceView,
};
use crate::ifds::provenance::{ProcedureFlowFunctions, contains_fact, insert_fact, facts_view};
use crate::ifds::solver::{derivable, derivation, intraprocedural, lemma_step_derivable};
use crate::ifds::provenance::{transfer_set, transfer_spec};
use crate::ifds::adapters::typescript::syntax::str_equal;

verus! {

/// One path state: facts, the branch labels taken, whether a branch on the
/// path could not be decided, the outcomes taken by branch operation, the
/// outcome required of each guard binding, and the known Boolean values.
#[derive(Debug, Clone, PartialEq, Eq)]
pub struct BranchState {
    pub facts: Vec<Fact>,
    pub labels: Vec<String>,
    pub unproven: bool,
    pub decisions: Vec<(NodeId, bool)>,
    pub guards: Vec<(BindingId, bool)>,
    pub known: Vec<(Place, bool)>,
}

/// The states reaching each operation, whether the state budget ran out,
/// and the branches whose outcome could not be decided.
#[derive(Debug, Clone, PartialEq, Eq)]
pub struct BranchPaths {
    pub at: Vec<(NodeId, Vec<BranchState>)>,
    pub truncated: bool,
    pub unproven_branches: Vec<NodeId>,
}

/// Which facts a state must hold.
#[derive(Debug, Clone, PartialEq, Eq)]
pub enum FactTest {
    Any,
    LastWrite { place: Place, write: DefinitionId },
    OriginFromWrite { write: DefinitionId },
    LastWriteOrOrigin { place: Place, write: DefinitionId, value: Place },
}

// ---------------------------------------------------------------------------
// Text.

/// Lexicographic order of byte sequences: a proper prefix comes first.
pub open spec fn bytes_less(x: Seq<u8>, y: Seq<u8>) -> bool
    decreases x.len(),
{
    if x.len() == 0 {
        y.len() > 0
    } else if y.len() == 0 {
        false
    } else if x[0] != y[0] {
        x[0] < y[0]
    } else {
        bytes_less(x.drop_first(), y.drop_first())
    }
}

/// Byte-wise lexicographic order of two texts (the order of `String`).
pub fn text_less(a: &str, b: &str) -> (res: bool)
    ensures
        res == bytes_less(a.spec_bytes(), b.spec_bytes()),
{
    let x = a.as_bytes();
    let y = b.as_bytes();
    let mut i: usize = 0;
    proof {
        assert(x@.skip(0) =~= x@);
        assert(y@.skip(0) =~= y@);
    }
    while i < x.len() && i < y.len()
        invariant
            i <= x@.len(),
            i <= y@.len(),
            x@ == a.spec_bytes(),
            y@ == b.spec_bytes(),
            bytes_less(x@, y@) == bytes_less(x@.skip(i as int), y@.skip(i as int)),
        decreases x.len() - i,
    {
        proof {
            let xs = x@.skip(i as int);
            let ys = y@.skip(i as int);
            assert(xs[0] == x@[i as int]);
            assert(ys[0] == y@[i as int]);
            assert(xs.drop_first() =~= x@.skip(i + 1));
            assert(ys.drop_first() =~= y@.skip(i + 1));
        }
        if x[i] != y[i] {
            return x[i] < y[i];
        }
        i = i + 1;
    }
    proof {
        assert(x@.skip(i as int).len() == x@.len() - i);
        assert(y@.skip(i as int).len() == y@.len() - i);
    }
    x.len() < y.len()
}

/// No byte sequence comes before itself.
pub proof fn lemma_bytes_less_irreflexive(x: Seq<u8>)
    ensures
        !bytes_less(x, x),
    decreases x.len(),
{
    if x.len() > 0 {
        lemma_bytes_less_irreflexive(x.drop_first());
    }
}

/// The byte order is transitive.
pub proof fn lemma_bytes_less_transitive(x: Seq<u8>, y: Seq<u8>, z: Seq<u8>)
    requires
        bytes_less(x, y),
        bytes_less(y, z),
    ensures
        bytes_less(x, z),
    decreases x.len(),
{
    if x.len() > 0 && x[0] == y[0] && y[0] == z[0] {
        lemma_bytes_less_transitive(x.drop_first(), y.drop_first(), z.drop_first());
    }
}

/// Of two different byte sequences, one comes first.
pub proof fn lemma_bytes_less_total(x: Seq<u8>, y: Seq<u8>)
    requires
        x != y,
    ensures
        bytes_less(x, y) || bytes_less(y, x),
    decreases x.len(),
{
    if x.len() == 0 {
        assert(y.len() > 0) by {
            if y.len() == 0 {
                assert(x =~= y);
            }
        }
    } else if y.len() > 0 && x[0] == y[0] {
        assert(x.drop_first() != y.drop_first()) by {
            if x.drop_first() == y.drop_first() {
                assert(x =~= y.drop_first().insert(0, y[0]));
                assert(y =~= y.drop_first().insert(0, y[0]));
            }
        }
        lemma_bytes_less_total(x.drop_first(), y.drop_first());
    }
}

/// Texts in strictly increasing byte order (the order of `String`).
pub open spec fn texts_sorted(s: Seq<Seq<char>>) -> bool {
    forall|i: int, j: int|
        0 <= i < j < s.len() ==> bytes_less(
            vstd::utf8::encode_utf8(#[trigger] s[i]),
            vstd::utf8::encode_utf8(#[trigger] s[j]),
        )
}

/// White space in the sense of Unicode's `White_Space` property.
pub open spec fn space_char(c: char) -> bool {
    c == ' ' || c == '\t' || c == '\n' || c == '\r' || c == '\u{0B}' || c == '\u{0C}' || c
        == '\u{85}' || c == '\u{A0}' || c == '\u{1680}' || c == '\u{2028}' || c == '\u{2029}' || c
        == '\u{202F}' || c == '\u{205F}' || c == '\u{3000}' || ('\u{2000}' <= c && c <= '\u{200A}')
}

fn is_space(c: char) -> (res: bool)
    ensures
        res == space_char(c),
{
    c == ' ' || c == '\t' || c == '\n' || c == '\r' || c == '\u{0B}' || c == '\u{0C}' || c
        == '\u{85}' || c == '\u{A0}' || c == '\u{1680}' || c == '\u{2028}' || c == '\u{2029}' || c
        == '\u{202F}' || c == '\u{205F}' || c == '\u{3000}' || ('\u{2000}' <= c && c <= '\u{200A}')
}

/// Opening minus closing parentheses in a text.
pub open spec fn paren_depth(s: Seq<char>) -> int
    decreases s.len(),
{
    if s.len() == 0 {
        0
    } else {
        paren_depth(s.drop_last()) + (if s.last() == '(' {
            1int
        } else if s.last() == ')' {
            -1int
        } else {
            0int
        })
    }
}

/// Whether the first character's matching parenthesis is the last one: the
/// depth returns to zero at the end and nowhere before.
pub open spec fn encloses(s: Seq<char>) -> bool {
    &&& paren_depth(s) == 0
    &&& forall|j: int| 1 <= j < s.len() ==> paren_depth(#[trigger] s.take(j)) != 0
}

/// Strips leading negations, counting them, and parentheses that enclose
/// the whole text.
pub open spec fn strip_label(s: Seq<char>, negative: bool) -> (bool, Seq<char>)
    decreases s.len(),
{
    if s.len() > 0 && s[0] == '!' {
        strip_label(s.drop_first(), !negative)
    } else if s.len() >= 2 && s[0] == '(' && s.last() == ')' && encloses(s) {
        strip_label(s.subrange(1, s.len() - 1), negative)
    } else {
        (negative, s)
    }
}

/// The text without its white space.
pub open spec fn without_space(s: Seq<char>) -> Seq<char>
    decreases s.len(),
{
    if s.len() == 0 {
        s
    } else if space_char(s.last()) {
        without_space(s.drop_last())
    } else {
        without_space(s.drop_last()).push(s.last())
    }
}

/// A branch label without white space, negations folded into at most one
/// `!` and enclosing parentheses removed.
pub open spec fn normalized_label(label: Seq<char>) -> Seq<char> {
    let stripped = strip_label(without_space(label), false);
    if stripped.0 {
        "!"@ + stripped.1
    } else {
        stripped.1
    }
}

/// Whether the first character's matching parenthesis is the last character.
fn encloses_whole(chars: &Vec<char>, start: usize, end: usize) -> (res: bool)
    requires
        start <= end <= chars@.len(),
    ensures
        res == encloses(chars@.subrange(start as int, end as int)),
{
    let ghost text = chars@.subrange(start as int, end as int);
    let mut depth: i128 = 0;
    let mut k: usize = start;
    while k < end
        invariant
            start <= k <= end <= chars@.len(),
            text == chars@.subrange(start as int, end as int),
            depth == paren_depth(text.take(k - start)),
            -(k - start) <= depth <= k - start,
            forall|j: int| 1 <= j <= k - start && j < text.len() ==> paren_depth(#[trigger] text.take(j)) != 0,
        decreases end - k,
    {
        proof {
            assert(text.take(k - start + 1).drop_last() =~= text.take(k - start));
            assert(text.take(k - start + 1).last() == chars@[k as int]);
        }
        if chars[k] == '(' {
            depth = depth + 1;
        }
        if chars[k] == ')' {
            depth = depth - 1;
        }
        if depth == 0 && k + 1 < end {
            return false;
        }
        k = k + 1;
    }
    proof {
        assert(text.take(k - start) =~= text);
    }
    depth == 0
}

/// A branch label without white space, negations folded and enclosing
/// parentheses removed.
pub fn normalize_label(label: &str) -> (res: String)
    ensures
        res@ == normalized_label(label@),
{
    let n = label.unicode_len();
    let mut chars: Vec<char> = Vec::new();
    let mut i: usize = 0;
    while i < n
        invariant
            n == label@.len(),
            i <= n,
            chars@ == without_space(label@.take(i as int)),
        decreases n - i,
    {
        let c = label.get_char(i);
        proof {
            assert(label@.take(i + 1).drop_last() =~= label@.take(i as int));
            assert(label@.take(i + 1).last() == c);
        }
        if !is_space(c) {
            chars.push(c);
        }
        i = i + 1;
    }
    proof {
        assert(label@.take(n as int) =~= label@);
    }
    let mut negative = false;
    let mut start: usize = 0;
    let mut end: usize = chars.len();
    proof {
        assert(chars@.subrange(0, chars@.len() as int) =~= chars@);
    }
    loop
        invariant
            start <= end <= chars@.len(),
            chars@ == without_space(label@),
            strip_label(chars@.subrange(start as int, end as int), negative) == strip_label(chars@, false),
        ensures
            start <= end <= chars@.len(),
            chars@ == without_space(label@),
            strip_label(chars@, false) == (negative, chars@.subrange(start as int, end as int)),
        decreases end - start,
    {
        let ghost sub = chars@.subrange(start as int, end as int);
        if start < end && chars[start] == '!' {
            proof {
                assert(sub[0] == '!');
                assert(sub.drop_first() =~= chars@.subrange(start + 1, end as int));
            }
            negative = !negative;
            start = start + 1;
        } else if end - start >= 2 && chars[start] == '(' && chars[end - 1] == ')' && encloses_whole(
            &chars,
            start,
            end,
        ) {
            proof {
                assert(sub[0] == '(');
                assert(sub.last() == ')');
                assert(sub.subrange(1, sub.len() - 1) =~= chars@.subrange(start + 1, end - 1));
            }
            start = start + 1;
            end = end - 1;
        } else {
            proof {
                if sub.len() > 0 {
                    assert(sub[0] == chars@[start as int]);
                    assert(sub.last() == chars@[end - 1]);
                }
                assert(strip_label(sub, negative) == (negative, sub));
            }
            break;
        }
    }
    let mut core = String::new();
    let mut k: usize = start;
    while k < end
        invariant
            start <= k <= end <= chars@.len(),
            core@ == chars@.subrange(start as int, k as int),
        decreases end - k,
    {
        proof {
            assert(chars@.subrange(start as int, k + 1) =~= chars@.subrange(start as int, k as int).push(
                chars@[k as int],
            ));
        }
        let piece = char_text(chars[k]);
        core = core.concat(piece.as_str());
        k = k + 1;
    }
    if negative {
        String::from_str("!").concat(core.as_str())
    } else {
        core
    }
}

/// The text of one character (`char::to_string`).
#[verifier::external_body]
pub(crate) fn char_text(c: char) -> (res: String)
    ensures
        res@ == seq![c],
{
    c.to_string()
}

/// Adds a text to a list kept in increasing order without repeats.
fn insert_sorted_text(list: &mut Vec<String>, text: String)
    ensures
        final(list)@.map_values(|t: String| t@).to_set() == old(list)@.map_values(|t: String| t@).to_set().insert(
            text@,
        ),
        texts_sorted(old(list)@.map_values(|t: String| t@)) ==> texts_sorted(
            final(list)@.map_values(|t: String| t@),
        ),
{
    let ghost start = list@;
    let ghost views = start.map_values(|t: String| t@);
    let ghost tv = text@;
    let mut k: usize = 0;
    while k < list.len()
        invariant
            k <= list@.len(),
            list@ == start,
            start == old(list)@,
            views == start.map_values(|t: String| t@),
            tv == text@,
            texts_sorted(views) ==> forall|j: int|
                0 <= j < k ==> bytes_less(
                    vstd::utf8::encode_utf8(#[trigger] views[j]),
                    vstd::utf8::encode_utf8(tv),
                ),
        decreases list.len() - k,
    {
        if list[k] == text {
            proof {
                crate::ifds::seqs::lemma_present_to_set(views, k as int, text@);
            }
            return;
        }
        if text_less(text.as_str(), list[k].as_str()) {
            list.insert(k, text);
            proof {
                assert(list@.map_values(|t: String| t@) =~= views.insert(k as int, tv));
                crate::ifds::seqs::lemma_insert_to_set(views, k as int, tv);
                if texts_sorted(views) {
                    let w = views.insert(k as int, tv);
                    assert forall|i: int, j: int| 0 <= i < j < w.len() implies bytes_less(
                        vstd::utf8::encode_utf8(#[trigger] w[i]),
                        vstd::utf8::encode_utf8(#[trigger] w[j]),
                    ) by {
                        if j == k {
                            assert(w[i] == views[i]);
                        } else if i == k {
                            assert(w[j] == views[j - 1]);
                            if j - 1 > k {
                                assert(bytes_less(
                                    vstd::utf8::encode_utf8(views[k as int]),
                                    vstd::utf8::encode_utf8(views[j - 1]),
                                ));
                                lemma_bytes_less_transitive(
                                    vstd::utf8::encode_utf8(tv),
                                    vstd::utf8::encode_utf8(views[k as int]),
                                    vstd::utf8::encode_utf8(views[j - 1]),
                                );
                            }
                        } else if j < k {
                            assert(w[i] == views[i] && w[j] == views[j]);
                        } else if i < k {
                            assert(w[i] == views[i] && w[j] == views[j - 1]);
                            assert(bytes_less(
                                vstd::utf8::encode_utf8(views[i]),
                                vstd::utf8::encode_utf8(tv),
                            ));
                            assert(bytes_less(
                                vstd::utf8::encode_utf8(views[k as int]),
                                vstd::utf8::encode_utf8(views[j - 1]),
                            ) || j - 1 == k);
                            lemma_bytes_less_transitive(
                                vstd::utf8::encode_utf8(views[i]),
                                vstd::utf8::encode_utf8(tv),
                                vstd::utf8::encode_utf8(views[k as int]),
                            );
                            if j - 1 > k {
                                lemma_bytes_less_transitive(
                                    vstd::utf8::encode_utf8(views[i]),
                                    vstd::utf8::encode_utf8(views[k as int]),
                                    vstd::utf8::encode_utf8(views[j - 1]),
                                );
                            }
                        } else {
                            assert(w[i] == views[i - 1] && w[j] == views[j - 1]);
                        }
                    }
                }
            }
            return;
        }
        proof {
            let a = vstd::utf8::encode_utf8(views[k as int]);
            let b = vstd::utf8::encode_utf8(tv);
            assert(views[k as int] == list@[k as int]@);
            assert(a != b) by {
                if a == b {
                    vstd::utf8::encode_utf8_decode_utf8(views[k as int]);
                    vstd::utf8::encode_utf8_decode_utf8(tv);
                }
            }
            lemma_bytes_less_total(a, b);
        }
        k = k + 1;
    }
    list.push(text);
    proof {
        assert(list@.map_values(|t: String| t@) =~= views.push(tv));
        crate::ifds::seqs::lemma_push_to_set(views, tv);
        if texts_sorted(views) {
            let w = views.push(tv);
            assert forall|i: int, j: int| 0 <= i < j < w.len() implies bytes_less(
                vstd::utf8::encode_utf8(#[trigger] w[i]),
                vstd::utf8::encode_utf8(#[trigger] w[j]),
            ) by {
                assert(w[i] == views[i]);
                if j < views.len() {
                    assert(w[j] == views[j]);
                }
            }
        }
    }
}

/// The labels joined with ` && `.
pub open spec fn joined(labels: Seq<Seq<char>>) -> Seq<char>
    decreases labels.len(),
{
    if labels.len() <= 1 {
        if labels.len() == 0 {
            Seq::empty()
        } else {
            labels[0]
        }
    } else {
        joined(labels.drop_last()) + " && "@ + labels.last()
    }
}

/// The labels of a state joined with ` && `, or nothing for no labels.
pub fn label_condition(labels: &Vec<String>) -> (res: Option<String>)
    ensures
        labels@.len() == 0 <==> res is None,
        res matches Some(text) ==> text@ == joined(labels@.map_values(|l: String| l@)),
{
    if labels.len() == 0 {
        return None;
    }
    let ghost views = labels@.map_values(|l: String| l@);
    let mut text = labels[0].clone();
    let mut k: usize = 1;
    proof {
        assert(views.take(1) =~= seq![labels@[0]@]);
    }
    while k < labels.len()
        invariant
            1 <= k <= labels@.len(),
            views == labels@.map_values(|l: String| l@),
            text@ == joined(views.take(k as int)),
        decreases labels.len() - k,
    {
        proof {
            assert(views.take(k + 1).drop_last() =~= views.take(k as int));
            assert(views.take(k + 1).last() == labels@[k as int]@);
        }
        text = text.concat(" && ").concat(labels[k].as_str());
        k = k + 1;
    }
    proof {
        assert(views.take(k as int) =~= views);
    }
    Some(text)
}

fn option_text_same(a: &Option<String>, b: &Option<String>) -> (res: bool)
    ensures
        res == (text_view(*a) == text_view(*b)),
{
    match (a, b) {
        (Some(x), Some(y)) => *x == *y,
        (None, None) => true,
        _ => false,
    }
}

// ---------------------------------------------------------------------------
// States.

/// The value of the first entry for a place, if any.
pub open spec fn lookup_known(known: Seq<(Place, bool)>, place: PlaceView) -> Option<bool>
    decreases known.len(),
{
    if known.len() == 0 {
        None
    } else if known[0].0@ == place {
        Some(known[0].1)
    } else {
        lookup_known(known.drop_first(), place)
    }
}

/// The outcome of the first entry for a guard binding, if any.
pub open spec fn lookup_guard(guards: Seq<(BindingId, bool)>, binding: LocalIdView) -> Option<bool>
    decreases guards.len(),
{
    if guards.len() == 0 {
        None
    } else if guards[0].0@ == binding {
        Some(guards[0].1)
    } else {
        lookup_guard(guards.drop_first(), binding)
    }
}

fn known_value(known: &Vec<(Place, bool)>, place: &Place) -> (res: Option<bool>)
    ensures
        match res {
            Some(v) => exists|i: int|
                0 <= i < known@.len() && known@[i].0@ == place@ && known@[i].1 == v && (forall|j: int|
                    0 <= j < i ==> known@[j].0@ != place@),
            None => forall|i: int| 0 <= i < known@.len() ==> known@[i].0@ != place@,
        },
        res == lookup_known(known@, place@),
{
    let mut k: usize = 0;
    proof {
        assert(known@.skip(0) =~= known@);
    }
    while k < known.len()
        invariant
            k <= known@.len(),
            forall|j: int| 0 <= j < k ==> known@[j].0@ != place@,
            lookup_known(known@, place@) == lookup_known(known@.skip(k as int), place@),
        decreases known.len() - k,
    {
        proof {
            let rest = known@.skip(k as int);
            assert(rest[0] == known@[k as int]);
            assert(rest.drop_first() =~= known@.skip(k + 1));
        }
        if known[k].0.same(place) {
            return Some(known[k].1);
        }
        k = k + 1;
    }
    None
}

fn set_known(known: &mut Vec<(Place, bool)>, place: &Place, value: Option<bool>)
    ensures
        final(known)@ == old(known)@.filter(|e: (Place, bool)| e.0@ != place@) + (match value {
            Some(v) => seq![(*place, v)],
            None => Seq::empty(),
        }),
{
    let mut kept: Vec<(Place, bool)> = Vec::new();
    let mut k: usize = 0;
    while k < known.len()
        invariant
            k <= known@.len(),
            kept@ == known@.take(k as int).filter(|e: (Place, bool)| e.0@ != place@),
        decreases known.len() - k,
    {
        proof {
            reveal(Seq::filter);
            assert(known@.take(k + 1).drop_last() =~= known@.take(k as int));
            assert(known@.take(k + 1).last() == known@[k as int]);
        }
        if !known[k].0.same(place) {
            kept.push((known[k].0.clone(), known[k].1));
        }
        k = k + 1;
    }
    proof {
        assert(known@.take(k as int) =~= known@);
    }
    if let Some(v) = value {
        kept.push((place.clone(), v));
    }
    *known = kept;
}

fn guard_value(guards: &Vec<(BindingId, bool)>, binding: &BindingId) -> (res: Option<bool>)
    ensures
        match res {
            Some(v) => exists|i: int|
                0 <= i < guards@.len() && guards@[i].0@ == binding@ && guards@[i].1 == v && (forall|j: int|
                    0 <= j < i ==> guards@[j].0@ != binding@),
            None => forall|i: int| 0 <= i < guards@.len() ==> guards@[i].0@ != binding@,
        },
        res == lookup_guard(guards@, binding@),
{
    let mut k: usize = 0;
    proof {
        assert(guards@.skip(0) =~= guards@);
    }
    while k < guards.len()
        invariant
            k <= guards@.len(),
            forall|j: int| 0 <= j < k ==> guards@[j].0@ != binding@,
            lookup_guard(guards@, binding@) == lookup_guard(guards@.skip(k as int), binding@),
        decreases guards.len() - k,
    {
        proof {
            let rest = guards@.skip(k as int);
            assert(rest[0] == guards@[k as int]);
            assert(rest.drop_first() =~= guards@.skip(k + 1));
        }
        if guards[k].0.same(binding) {
            return Some(guards[k].1);
        }
        k = k + 1;
    }
    None
}

fn set_guard(guards: &mut Vec<(BindingId, bool)>, binding: &BindingId, value: Option<bool>)
    ensures
        final(guards)@ == old(guards)@.filter(|e: (BindingId, bool)| e.0@ != binding@) + (match value {
            Some(v) => seq![(*binding, v)],
            None => Seq::empty(),
        }),
{
    let mut kept: Vec<(BindingId, bool)> = Vec::new();
    let mut k: usize = 0;
    while k < guards.len()
        invariant
            k <= guards@.len(),
            kept@ == guards@.take(k as int).filter(|e: (BindingId, bool)| e.0@ != binding@),
        decreases guards.len() - k,
    {
        proof {
            reveal(Seq::filter);
            assert(guards@.take(k + 1).drop_last() =~= guards@.take(k as int));
            assert(guards@.take(k + 1).last() == guards@[k as int]);
        }
        if !guards[k].0.same(binding) {
            kept.push((guards[k].0.clone(), guards[k].1));
        }
        k = k + 1;
    }
    proof {
        assert(guards@.take(k as int) =~= guards@);
    }
    if let Some(v) = value {
        kept.push((binding.clone(), v));
    }
    *guards = kept;
}

fn set_decision(decisions: &mut Vec<(NodeId, bool)>, node: &NodeId, value: bool)
    ensures
        final(decisions)@ == old(decisions)@.filter(|e: (NodeId, bool)| e.0@ != node@).push((*node, value)),
{
    let mut kept: Vec<(NodeId, bool)> = Vec::new();
    let mut k: usize = 0;
    while k < decisions.len()
        invariant
            k <= decisions@.len(),
            kept@ == decisions@.take(k as int).filter(|e: (NodeId, bool)| e.0@ != node@),
        decreases decisions.len() - k,
    {
        proof {
            reveal(Seq::filter);
            assert(decisions@.take(k + 1).drop_last() =~= decisions@.take(k as int));
            assert(decisions@.take(k + 1).last() == decisions@[k as int]);
        }
        if !decisions[k].0.same(node) {
            kept.push((decisions[k].0.clone(), decisions[k].1));
        }
        k = k + 1;
    }
    proof {
        assert(decisions@.take(k as int) =~= decisions@);
    }
    kept.push((node.clone(), value));
    *decisions = kept;
}

/// Two states with equal fields.
pub open spec fn state_same(a: BranchState, b: BranchState) -> bool {
    &&& a.facts@ == b.facts@
    &&& a.labels@ == b.labels@
    &&& a.unproven == b.unproven
    &&& a.decisions@ == b.decisions@
    &&& a.guards@ == b.guards@
    &&& a.known@ == b.known@
}

fn clone_state(s: &BranchState) -> (res: BranchState)
    ensures
        state_same(res, *s),
{
    let mut facts: Vec<Fact> = Vec::new();
    let mut k: usize = 0;
    while k < s.facts.len()
        invariant
            k <= s.facts@.len(),
            facts@ == s.facts@.take(k as int),
        decreases s.facts.len() - k,
    {
        facts.push(s.facts[k].clone());
        proof {
            assert(s.facts@.take(k + 1) =~= s.facts@.take(k as int).push(s.facts@[k as int]));
        }
        k = k + 1;
    }
    proof {
        assert(s.facts@.take(k as int) =~= s.facts@);
    }
    let mut labels: Vec<String> = Vec::new();
    let mut k: usize = 0;
    while k < s.labels.len()
        invariant
            k <= s.labels@.len(),
            labels@ == s.labels@.take(k as int),
        decreases s.labels.len() - k,
    {
        labels.push(s.labels[k].clone());
        proof {
            assert(s.labels@.take(k + 1) =~= s.labels@.take(k as int).push(s.labels@[k as int]));
        }
        k = k + 1;
    }
    proof {
        assert(s.labels@.take(k as int) =~= s.labels@);
    }
    let mut decisions: Vec<(NodeId, bool)> = Vec::new();
    let mut k: usize = 0;
    while k < s.decisions.len()
        invariant
            k <= s.decisions@.len(),
            decisions@ == s.decisions@.take(k as int),
        decreases s.decisions.len() - k,
    {
        decisions.push((s.decisions[k].0.clone(), s.decisions[k].1));
        proof {
            assert(s.decisions@.take(k + 1) =~= s.decisions@.take(k as int).push(s.decisions@[k as int]));
        }
        k = k + 1;
    }
    proof {
        assert(s.decisions@.take(k as int) =~= s.decisions@);
    }
    let mut guards: Vec<(BindingId, bool)> = Vec::new();
    let mut k: usize = 0;
    while k < s.guards.len()
        invariant
            k <= s.guards@.len(),
            guards@ == s.guards@.take(k as int),
        decreases s.guards.len() - k,
    {
        guards.push((s.guards[k].0.clone(), s.guards[k].1));
        proof {
            assert(s.guards@.take(k + 1) =~= s.guards@.take(k as int).push(s.guards@[k as int]));
        }
        k = k + 1;
    }
    proof {
        assert(s.guards@.take(k as int) =~= s.guards@);
    }
    let mut known: Vec<(Place, bool)> = Vec::new();
    let mut k: usize = 0;
    while k < s.known.len()
        invariant
            k <= s.known@.len(),
            known@ == s.known@.take(k as int),
        decreases s.known.len() - k,
    {
        known.push((s.known[k].0.clone(), s.known[k].1));
        proof {
            assert(s.known@.take(k + 1) =~= s.known@.take(k as int).push(s.known@[k as int]));
        }
        k = k + 1;
    }
    proof {
        assert(s.known@.take(k as int) =~= s.known@);
    }
    BranchState { facts, labels, unproven: s.unproven, decisions, guards, known }
}

fn facts_same(a: &Vec<Fact>, b: &Vec<Fact>) -> (res: bool)
    ensures
        res == (facts_view(a@) == facts_view(b@)),
{
    let mut k: usize = 0;
    while k < a.len()
        invariant
            k <= a@.len(),
            forall|i: int| 0 <= i < k ==> facts_view(b@).contains(#[trigger] a@[i]@),
        decreases a.len() - k,
    {
        if !contains_fact(b, &a[k]) {
            return false;
        }
        k = k + 1;
    }
    let mut k: usize = 0;
    while k < b.len()
        invariant
            k <= b@.len(),
            forall|i: int| 0 <= i < a@.len() ==> facts_view(b@).contains(#[trigger] a@[i]@),
            forall|i: int| 0 <= i < k ==> facts_view(a@).contains(#[trigger] b@[i]@),
        decreases b.len() - k,
    {
        if !contains_fact(a, &b[k]) {
            return false;
        }
        k = k + 1;
    }
    proof {
        assert(facts_view(a@) =~= facts_view(b@));
    }
    true
}

fn states_same(a: &BranchState, b: &BranchState) -> bool {
    if a.unproven != b.unproven || a.labels.len() != b.labels.len() || a.decisions.len()
        != b.decisions.len() || a.guards.len() != b.guards.len() || a.known.len() != b.known.len() {
        return false;
    }
    let mut k: usize = 0;
    while k < a.labels.len()
        invariant
            a.labels@.len() == b.labels@.len(),
            k <= a.labels@.len(),
        decreases a.labels.len() - k,
    {
        if a.labels[k] != b.labels[k] {
            return false;
        }
        k = k + 1;
    }
    let mut k: usize = 0;
    while k < a.decisions.len()
        invariant
            k <= a.decisions@.len(),
        decreases a.decisions.len() - k,
    {
        let mut found = false;
        let mut j: usize = 0;
        while j < b.decisions.len()
            invariant
                k < a.decisions@.len(),
                j <= b.decisions@.len(),
            decreases b.decisions.len() - j,
        {
            if b.decisions[j].0.same(&a.decisions[k].0) && b.decisions[j].1 == a.decisions[k].1 {
                found = true;
            }
            j = j + 1;
        }
        if !found {
            return false;
        }
        k = k + 1;
    }
    let mut k: usize = 0;
    while k < a.guards.len()
        invariant
            k <= a.guards@.len(),
        decreases a.guards.len() - k,
    {
        match guard_value(&b.guards, &a.guards[k].0) {
            Some(v) => {
                if v != a.guards[k].1 {
                    return false;
                }
            },
            None => {
                return false;
            },
        }
        k = k + 1;
    }
    let mut k: usize = 0;
    while k < a.known.len()
        invariant
            k <= a.known@.len(),
        decreases a.known.len() - k,
    {
        match known_value(&b.known, &a.known[k].0) {
            Some(v) => {
                if v != a.known[k].1 {
                    return false;
                }
            },
            None => {
                return false;
            },
        }
        k = k + 1;
    }
    facts_same(&a.facts, &b.facts)
}

/// The known values with the place set to a value, or forgotten.
pub open spec fn known_update(known: Seq<(Place, bool)>, place: Place, value: Option<bool>) -> Seq<(Place, bool)> {
    known.filter(|e: (Place, bool)| e.0@ != place@) + (match value {
        Some(v) => seq![(place, v)],
        None => Seq::empty(),
    })
}

/// The known Boolean values after an operation: literals and reads set
/// their result, a negation of a known value sets its result, and a write
/// carries its single source's value (or forgets its target).
pub open spec fn known_after(known: Seq<(Place, bool)>, operation: Operation) -> Seq<(Place, bool)> {
    match operation {
        Operation::Literal { literal_kind: LiteralKind::Boolean, raw, result, .. } => known_update(
            known,
            result,
            Some(raw@ == "true"@),
        ),
        Operation::Read { source, result } => known_update(known, result, lookup_known(known, source@)),
        Operation::Compute { operator: PrimitiveOperator::LogicalNot, inputs, result, .. } => if inputs@.len() > 0
            && lookup_known(known, inputs@[0].place@) is Some {
            known_update(known, result, Some(!lookup_known(known, inputs@[0].place@)->0))
        } else {
            known
        },
        Operation::Write { target, sources, .. } => known_update(
            known,
            target,
            if sources@.len() == 1 {
                lookup_known(known, sources@[0]@)
            } else {
                None
            },
        ),
        _ => known,
    }
}

/// The guard outcomes after an operation: a write to a binding forgets
/// its guard.
pub open spec fn guards_after(guards: Seq<(BindingId, bool)>, operation: Operation) -> Seq<(BindingId, bool)> {
    match operation {
        Operation::Write { target: Place::Binding(binding), .. } => guards.filter(
            |e: (BindingId, bool)| e.0@ != binding@,
        ),
        _ => guards,
    }
}

impl BranchState {
    /// The facts of the state.
    pub fn state_facts(&self) -> (res: &Vec<Fact>)
        ensures
            *res == self.facts,
    {
        &self.facts
    }

    /// The branch labels taken, in increasing order.
    pub fn state_labels(&self) -> (res: &Vec<String>)
        ensures
            *res == self.labels,
    {
        &self.labels
    }

    /// Whether a branch on the path could not be decided.
    pub fn is_unproven(&self) -> (res: bool)
        ensures
            res == self.unproven,
    {
        self.unproven
    }

    /// Tracks the Boolean values that literals, reads, negations and single
    /// source writes carry; a write to a binding forgets its guard.
    fn update_known(&mut self, operation: &Operation)
        ensures
            final(self).facts@ == old(self).facts@,
            final(self).labels == old(self).labels,
            final(self).unproven == old(self).unproven,
            final(self).decisions == old(self).decisions,
            final(self).known@ == known_after(old(self).known@, *operation),
            final(self).guards@ == guards_after(old(self).guards@, *operation),
    {
        match operation {
            Operation::Literal { literal_kind: LiteralKind::Boolean, raw, result, .. } => {
                let value = str_equal(raw.as_str(), "true");
                set_known(&mut self.known, result, Some(value));
            },
            Operation::Read { source, result } => {
                let value = known_value(&self.known, source);
                set_known(&mut self.known, result, value);
            },
            Operation::Compute { operator: PrimitiveOperator::LogicalNot, inputs, result, .. } => {
                if inputs.len() > 0 {
                    if let Some(value) = known_value(&self.known, &inputs[0].place) {
                        set_known(&mut self.known, result, Some(!value));
                    }
                }
            },
            Operation::Write { target, sources, .. } => {
                let value = if sources.len() == 1 {
                    known_value(&self.known, &sources[0])
                } else {
                    None
                };
                set_known(&mut self.known, target, value);
                if let Place::Binding(binding) = target {
                    set_guard(&mut self.guards, binding, None);
                }
            },
            _ => {},
        }
    }
}

/// The binding a condition reads, and whether it is read positively
/// (through an even number of negations).
fn guard_binding(procedure: &ProcedureIr, place: &Place, fuel: usize) -> Option<(BindingId, bool)>
    decreases fuel,
{
    if fuel == 0 {
        return None;
    }
    let id = match place {
        Place::Temporary(id) => id,
        Place::Binding(_) => {
            return None;
        },
    };
    let index = match find_node(procedure, id) {
        Some(index) => index,
        None => {
            return None;
        },
    };
    match &procedure.nodes[index].operation {
        Operation::Read { source: Place::Binding(binding), .. } => Some((binding.clone(), true)),
        Operation::Compute { operator: PrimitiveOperator::LogicalNot, inputs, .. } => {
            if inputs.len() == 0 {
                return None;
            }
            match guard_binding(procedure, &inputs[0].place, fuel - 1) {
                Some((binding, positive)) => Some((binding, !positive)),
                None => None,
            }
        },
        _ => None,
    }
}

/// Whether a set of facts passes the test.
pub open spec fn test_holds(test: FactTest, facts: Set<FactView>) -> bool {
    match test {
        FactTest::Any => true,
        FactTest::LastWrite { place, write } => facts.contains(
            FactView::LastWrite { place: place@, write: write@ },
        ),
        FactTest::OriginFromWrite { write } => exists|p: PlaceView|
            facts.contains(FactView::Origin { place: p, source: SourceView::Write(write@) }),
        FactTest::LastWriteOrOrigin { place, write, value } => facts.contains(
            FactView::LastWrite { place: place@, write: write@ },
        ) || facts.contains(FactView::Origin { place: value@, source: SourceView::Write(write@) }),
    }
}

/// The condition of a state: its labels joined, or none without labels.
pub open spec fn condition_of(labels: Seq<String>) -> Option<Seq<char>> {
    if labels.len() == 0 {
        None
    } else {
        Some(joined(labels.map_values(|l: String| l@)))
    }
}

/// Whether `t` is the condition of a state with these labels.
pub open spec fn carries_condition(t: Option<String>, labels: Seq<String>) -> bool {
    text_view(t) == condition_of(labels)
}

pub open spec fn text_view(t: Option<String>) -> Option<Seq<char>> {
    match t {
        Some(x) => Some(x@),
        None => None,
    }
}

/// `k` is the first entry of `at` for the node.
pub open spec fn first_entry(at: Seq<(NodeId, Vec<BranchState>)>, node: LocalIdView, k: int) -> bool {
    &&& 0 <= k < at.len()
    &&& at[k].0@ == node
    &&& forall|j: int| 0 <= j < k ==> (#[trigger] at[j]).0@ != node
}

/// The states recorded for a node: those of its first entry.
pub open spec fn states_of(at: Seq<(NodeId, Vec<BranchState>)>, node: LocalIdView) -> Seq<BranchState> {
    if exists|k: int| first_entry(at, node, k) {
        at[choose|k: int| first_entry(at, node, k)].1@
    } else {
        Seq::empty()
    }
}

proof fn lemma_first_entry_unique(at: Seq<(NodeId, Vec<BranchState>)>, node: LocalIdView, k: int)
    requires
        first_entry(at, node, k),
    ensures
        states_of(at, node) == at[k].1@,
{
    let c = choose|c: int| first_entry(at, node, c);
    assert(first_entry(at, node, c));
    if c < k {
        assert(at[c].0@ != node);
    }
    if k < c {
        assert(at[k].0@ != node);
    }
}

pub(crate) fn fact_test_holds(test: &FactTest, facts: &Vec<Fact>) -> (res: bool)
    ensures
        res == test_holds(*test, facts_view(facts@)),
{
    match test {
        FactTest::Any => true,
        FactTest::LastWrite { place, write } => contains_fact(
            facts,
            &Fact::LastWrite { place: place.clone(), write: write.clone() },
        ),
        FactTest::OriginFromWrite { write } => {
            let mut k: usize = 0;
            while k < facts.len()
                invariant
                    k <= facts@.len(),
                    *test == (FactTest::OriginFromWrite { write: *write }),
                    forall|j: int| 0 <= j < k ==> !((#[trigger] facts@[j])@ matches FactView::Origin {
                        source: SourceView::Write(w),
                        ..
                    } && w == write@),
                decreases facts.len() - k,
            {
                if let Fact::Origin { place, source: Source::Write(candidate) } = &facts[k] {
                    if candidate.same(write) {
                        proof {
                            assert(facts_view(facts@).contains(facts@[k as int]@));
                            assert(facts@[k as int]@ == FactView::Origin {
                                place: place@,
                                source: SourceView::Write(write@),
                            });
                            assert(facts_view(facts@).contains(
                                FactView::Origin { place: place@, source: SourceView::Write(write@) },
                            ));
                            assert(exists|p: PlaceView| #[trigger] facts_view(facts@).contains(
                                FactView::Origin { place: p, source: SourceView::Write(write@) },
                            ));
                        }
                        return true;
                    }
                }
                k = k + 1;
            }
            proof {
                assert forall|p: PlaceView| !facts_view(facts@).contains(
                    FactView::Origin { place: p, source: SourceView::Write(write@) },
                ) by {
                    if facts_view(facts@).contains(
                        FactView::Origin { place: p, source: SourceView::Write(write@) },
                    ) {
                        let j = choose|j: int| 0 <= j < facts@.len() && facts@[j]@ == FactView::Origin {
                            place: p,
                            source: SourceView::Write(write@),
                        };
                        assert(facts@[j]@ matches FactView::Origin { source: SourceView::Write(w), .. } && w == write@);
                    }
                }
            }
            false
        },
        FactTest::LastWriteOrOrigin { place, write, value } => contains_fact(
            facts,
            &Fact::LastWrite { place: place.clone(), write: write.clone() },
        ) || contains_fact(
            facts,
            &Fact::Origin { place: value.clone(), source: Source::Write(write.clone()) },
        ),
    }
}

/// Whether the facts of a state pass the test.
pub open spec fn state_passes(test: FactTest, state: BranchState) -> bool {
    test_holds(test, facts_view(state.facts@))
}

/// Whether some state passes the test and carries the condition `t`.
pub open spec fn condition_witnessed(states: Seq<BranchState>, test: FactTest, t: Option<String>) -> bool {
    exists|i: int| 0 <= i < states.len() && state_passes(test, #[trigger] states[i]) && carries_condition(
        t,
        states[i].labels@,
    )
}

/// Whether the list holds the condition of a state with these labels.
pub open spec fn condition_listed(list: Seq<Option<String>>, labels: Seq<String>) -> bool {
    exists|c: int| 0 <= c < list.len() && carries_condition(#[trigger] list[c], labels)
}

/// Every fact of the state holds on entry to `node` in the fixed point, and
/// its branch labels are in increasing order without repeats.
pub open spec fn state_sound(p: ProcedureIr, entry: Set<FactView>, node: LocalIdView, state: BranchState) -> bool {
    &&& forall|x: FactView| facts_view(state.facts@).contains(x) ==> derivable(p, entry, node, x)
    &&& texts_sorted(state.labels@.map_values(|l: String| l@))
}

/// Every recorded state is sound at its node.
pub open spec fn states_sound(p: ProcedureIr, entry: Set<FactView>, at: Seq<(NodeId, Vec<BranchState>)>) -> bool {
    forall|k: int, j: int|
        0 <= k < at.len() && 0 <= j < at[k].1@.len() ==> state_sound(p, entry, at[k].0@, #[trigger] at[k].1@[j])
}

/// The conditions of the states whose facts pass the test, without repeats.
fn passing_conditions(states: &Vec<BranchState>, test: &FactTest) -> (res: Vec<Option<String>>)
    ensures
        forall|c: int| 0 <= c < res@.len() ==> condition_witnessed(states@, *test, #[trigger] res@[c]),
        forall|i: int| 0 <= i < states@.len() && state_passes(*test, #[trigger] states@[i])
            ==> condition_listed(res@, states@[i].labels@),
{
    let mut conditions: Vec<Option<String>> = Vec::new();
    let mut j: usize = 0;
    while j < states.len()
        invariant
            j <= states@.len(),
            forall|c: int| 0 <= c < conditions@.len() ==> condition_witnessed(
                states@,
                *test,
                #[trigger] conditions@[c],
            ),
            forall|i: int| 0 <= i < j && state_passes(*test, #[trigger] states@[i])
                ==> condition_listed(conditions@, states@[i].labels@),
        decreases states.len() - j,
    {
        let ghost before = conditions@;
        if fact_test_holds(test, &states[j].facts) {
            let condition = label_condition(&states[j].labels);
            let mut present = false;
            let mut c: usize = 0;
            while c < conditions.len()
                invariant
                    c <= conditions@.len(),
                    conditions@ == before,
                    present ==> condition_listed(conditions@, states@[j as int].labels@),
                    carries_condition(condition, states@[j as int].labels@),
                decreases conditions.len() - c,
            {
                if option_text_same(&conditions[c], &condition) {
                    proof {
                        assert(carries_condition(conditions@[c as int], states@[j as int].labels@));
                    }
                    present = true;
                }
                c = c + 1;
            }
            if !present {
                conditions.push(condition);
                proof {
                    let last = conditions@.len() - 1;
                    assert(carries_condition(conditions@[last], states@[j as int].labels@));
                    assert(condition_witnessed(states@, *test, conditions@[last]));
                    assert(condition_listed(conditions@, states@[j as int].labels@));
                }
            }
        }
        proof {
            assert(forall|c: int| 0 <= c < before.len() ==> conditions@[c] == before[c]);
            assert forall|i: int| 0 <= i <= j && state_passes(*test, #[trigger] states@[i])
                implies condition_listed(conditions@, states@[i].labels@) by {
                if i < j {
                    let c = choose|c: int| 0 <= c < before.len() && carries_condition(
                        #[trigger] before[c],
                        states@[i].labels@,
                    );
                    assert(conditions@[c] == before[c]);
                }
            }
        }
        j = j + 1;
    }
    conditions
}

/// How many states the list records over all its nodes.
pub open spec fn states_count(at: Seq<(NodeId, Vec<BranchState>)>) -> int
    decreases at.len(),
{
    if at.len() == 0 {
        0
    } else {
        states_count(at.drop_last()) + at.last().1@.len()
    }
}

proof fn lemma_states_count_push(at: Seq<(NodeId, Vec<BranchState>)>, x: (NodeId, Vec<BranchState>))
    ensures
        states_count(at.push(x)) == states_count(at) + x.1@.len(),
{
    assert(at.push(x).drop_last() =~= at);
}

proof fn lemma_states_count_update(at: Seq<(NodeId, Vec<BranchState>)>, s: int, x: (NodeId, Vec<BranchState>))
    requires
        0 <= s < at.len(),
    ensures
        states_count(at.update(s, x)) == states_count(at) - at[s].1@.len() + x.1@.len(),
    decreases at.len(),
{
    if s == at.len() - 1 {
        assert(at.update(s, x).drop_last() =~= at.drop_last());
    } else {
        lemma_states_count_update(at.drop_last(), s, x);
        assert(at.update(s, x).drop_last() =~= at.drop_last().update(s, x));
    }
}

/// The entry state: the entry facts, no labels, decisions, guards or known
/// values, and every branch so far proven.
pub open spec fn entry_state(state: BranchState, entry_facts: Seq<Fact>) -> bool {
    &&& state.facts@ == entry_facts
    &&& state.labels@.len() == 0
    &&& !state.unproven
    &&& state.decisions@.len() == 0
    &&& state.guards@.len() == 0
    &&& state.known@.len() == 0
}

/// The first recorded node is the entry, with the entry state first.
pub open spec fn entry_recorded(at: Seq<(NodeId, Vec<BranchState>)>, entry: NodeId, entry_facts: Seq<Fact>) -> bool {
    &&& at.len() >= 1
    &&& at[0].0@ == entry@
    &&& at[0].1@.len() >= 1
    &&& entry_state(at[0].1@[0], entry_facts)
}

impl BranchPaths {
    /// Explores states from the entry along normal and branch edges,
    /// skipping branch outcomes that contradict known values or earlier
    /// guards, and stops once more than `max_states` states were found.
    #[verifier::loop_isolation(false)]
    pub fn build(procedure: &ProcedureIr, entry_facts: Vec<Fact>, max_states: usize) -> (res: Self)
        requires
            max_states < usize::MAX,
        ensures
            states_sound(*procedure, facts_view(entry_facts@), res.at@),
            entry_recorded(res.at@, procedure.entry, entry_facts@),
            res.truncated ==> states_count(res.at@) == max_states + 1 || (max_states == 0 && states_count(
                res.at@,
            ) == 2),
            !res.truncated ==> states_count(res.at@) <= max_states || states_count(res.at@) == 1,
    {
        let ghost entry_set = facts_view(entry_facts@);
        let ghost entry_seq = entry_facts@;
        proof {
            assert forall|x: FactView| entry_set.contains(x) implies derivable(*procedure, entry_set, procedure.entry@, x) by {
                let path = seq![(procedure.entry@, x)];
                assert(derivation(*procedure, entry_set, path));
            }
        }
        let flows = ProcedureFlowFunctions::new(procedure);
        let initial = BranchState {
            facts: entry_facts,
            labels: Vec::new(),
            unproven: false,
            decisions: Vec::new(),
            guards: Vec::new(),
            known: Vec::new(),
        };
        let mut result = BranchPaths { at: Vec::new(), truncated: false, unproven_branches: Vec::new() };
        let mut entry_states: Vec<BranchState> = Vec::new();
        entry_states.push(clone_state(&initial));
        result.at.push((procedure.entry.clone(), entry_states));
        proof {
            lemma_states_count_push(Seq::empty(), result.at@[0]);
            assert(result.at@ =~= Seq::<(NodeId, Vec<BranchState>)>::empty().push(result.at@[0]));
        }
        let entry = match find_node(procedure, &procedure.entry) {
            Some(entry) => entry,
            None => {
                return result;
            },
        };
        let mut queue: Vec<(usize, BranchState)> = Vec::new();
        queue.push((entry, initial));
        let mut count: usize = 1;
        let mut head: usize = 0;
        while head < queue.len()
            invariant
                queue@.len() == count,
                count <= max_states || count == 1,
                max_states < usize::MAX,
                flows.procedure == procedure,
                forall|q: int| 0 <= q < queue@.len() ==> (#[trigger] queue@[q]).0 < procedure.nodes@.len(),
                forall|q: int| 0 <= q < queue@.len() ==> state_sound(
                    *procedure,
                    entry_set,
                    procedure.nodes@[queue@[q].0 as int].id@,
                    (#[trigger] queue@[q]).1,
                ),
                states_sound(*procedure, entry_set, result.at@),
                entry_recorded(result.at@, procedure.entry, entry_seq),
                states_count(result.at@) == count,
                !result.truncated,
            decreases max_states + 1 - head,
        {
            let node_index = queue[head].0;
            let incoming = clone_state(&queue[head].1);
            proof {
                assert(state_sound(*procedure, entry_set, procedure.nodes@[node_index as int].id@, queue@[head as int].1));
            }
            head = head + 1;
            let node = &procedure.nodes[node_index];
            let mut outgoing = clone_state(&incoming);
            outgoing.facts = flows.transfer_all(node_index, &incoming.facts).into_facts();
            outgoing.update_known(&node.operation);
            let mut e: usize = 0;
            while e < procedure.edges.len()
                invariant
                    queue@.len() == count,
                    count <= max_states || count == 1,
                    max_states < usize::MAX,
                    head <= count,
                    node_index < procedure.nodes@.len(),
                    forall|q: int| 0 <= q < queue@.len() ==> (#[trigger] queue@[q]).0 < procedure.nodes@.len(),
                    forall|q: int| 0 <= q < queue@.len() ==> state_sound(
                        *procedure,
                        entry_set,
                        procedure.nodes@[queue@[q].0 as int].id@,
                        (#[trigger] queue@[q]).1,
                    ),
                    states_sound(*procedure, entry_set, result.at@),
                    entry_recorded(result.at@, procedure.entry, entry_seq),
                    states_count(result.at@) == count,
                    !result.truncated,
                decreases procedure.edges.len() - e,
            {
                let ghost edge_index = e as int;
                let edge = &procedure.edges[e];
                e = e + 1;
                if !edge.source.same(&node.id) {
                    continue;
                }
                let mut next = clone_state(&outgoing);
                match &edge.kind {
                    EdgeKind::Normal => {},
                    EdgeKind::Branch { outcome } => {
                        let outcome = *outcome;
                        let condition = match &node.operation {
                            Operation::Branch { condition } => condition,
                            _ => {
                                continue;
                            },
                        };
                        if let Some(value) = known_value(&next.known, condition) {
                            if value != outcome {
                                continue;
                            }
                        }
                        set_decision(&mut next.decisions, &node.id, outcome);
                        match guard_binding(procedure, condition, procedure.nodes.len()) {
                            Some((binding, positive)) => {
                                let required = outcome == positive;
                                if let Some(previous) = guard_value(&next.guards, &binding) {
                                    if previous != required {
                                        continue;
                                    }
                                }
                                set_guard(&mut next.guards, &binding, Some(required));
                            },
                            None => {
                                if known_value(&next.known, condition).is_none() {
                                    next.unproven = true;
                                    let mut seen = false;
                                    let mut k: usize = 0;
                                    while k < result.unproven_branches.len()
                                        invariant
                                            k <= result.unproven_branches@.len(),
                                        decreases result.unproven_branches.len() - k,
                                    {
                                        if result.unproven_branches[k].same(&node.id) {
                                            seen = true;
                                        }
                                        k = k + 1;
                                    }
                                    if !seen {
                                        result.unproven_branches.push(node.id.clone());
                                    }
                                }
                            },
                        }
                        if let Some(label) = &edge.assumption {
                            insert_sorted_text(&mut next.labels, normalize_label(label.as_str()));
                        }
                    },
                    _ => {
                        continue;
                    },
                }
                let target = match find_node(procedure, &edge.target) {
                    Some(t) => t,
                    None => {
                        continue;
                    },
                };
                proof {
                    assert(procedure.edges@[edge_index] == *edge);
                    assert(intraprocedural(edge.kind));
                    assert forall|g: FactView| facts_view(next.facts@).contains(g) implies derivable(
                        *procedure,
                        entry_set,
                        edge.target@,
                        g,
                    ) by {
                        assert(facts_view(next.facts@).contains(g) == transfer_set(
                            node.operation,
                            facts_view(incoming.facts@),
                        ).contains(g));
                        let f = choose|f: FactView| facts_view(incoming.facts@).contains(f)
                            && #[trigger] transfer_spec(node.operation, f).contains(g);
                        lemma_step_derivable(*procedure, entry_set, node_index as int, f, edge_index, target as int, g);
                    }
                    assert(state_sound(*procedure, entry_set, edge.target@, next));
                }
                // Add the state at the target unless an equal one is there.
                let mut slot: Option<usize> = None;
                let mut k: usize = 0;
                while k < result.at.len()
                    invariant
                        k <= result.at@.len(),
                        slot matches Some(s) ==> s < result.at@.len() && result.at@[s as int].0@ == edge.target@,
                    decreases result.at.len() - k,
                {
                    if result.at[k].0.same(&edge.target) {
                        slot = Some(k);
                        break;
                    }
                    k = k + 1;
                }
                let inserted = match slot {
                    Some(s) => {
                        let mut present = false;
                        let mut j: usize = 0;
                        while j < result.at[s].1.len()
                            invariant
                                s < result.at@.len(),
                                j <= result.at@[s as int].1@.len(),
                            decreases result.at@[s as int].1@.len() - j,
                        {
                            if states_same(&result.at[s].1[j], &next) {
                                present = true;
                            }
                            j = j + 1;
                        }
                        if present {
                            false
                        } else {
                            let mut states: Vec<BranchState> = Vec::new();
                            let mut j: usize = 0;
                            while j < result.at[s].1.len()
                                invariant
                                    s < result.at@.len(),
                                    j <= result.at@[s as int].1@.len(),
                                    states@.len() == j,
                                    forall|i: int| 0 <= i < j ==> state_same(#[trigger] states@[i], result.at@[s as int].1@[i]),
                                decreases result.at@[s as int].1@.len() - j,
                            {
                                states.push(clone_state(&result.at[s].1[j]));
                                j = j + 1;
                            }
                            states.push(clone_state(&next));
                            let id = result.at[s].0.clone();
                            let ghost before = result.at@;
                            proof {
                                assert forall|i: int| 0 <= i < states@.len() implies state_sound(
                                    *procedure,
                                    entry_set,
                                    edge.target@,
                                    #[trigger] states@[i],
                                ) by {
                                    if i < j {
                                        assert(state_sound(*procedure, entry_set, before[s as int].0@, before[s as int].1@[i]));
                                    }
                                }
                            }
                            result.at.set(s, (id, states));
                            proof {
                                lemma_states_count_update(before, s as int, result.at@[s as int]);
                                assert(result.at@ == before.update(s as int, result.at@[s as int]));
                                if s == 0 {
                                    assert(state_same(result.at@[0].1@[0], before[0].1@[0]));
                                }
                                assert forall|k2: int, j2: int|
                                    0 <= k2 < result.at@.len() && 0 <= j2 < result.at@[k2].1@.len() implies state_sound(
                                    *procedure,
                                    entry_set,
                                    result.at@[k2].0@,
                                    #[trigger] result.at@[k2].1@[j2],
                                ) by {
                                    if k2 != s {
                                        assert(result.at@[k2] == before[k2]);
                                    }
                                }
                            }
                            true
                        }
                    },
                    None => {
                        let mut states: Vec<BranchState> = Vec::new();
                        states.push(clone_state(&next));
                        let ghost before = result.at@;
                        result.at.push((edge.target.clone(), states));
                        proof {
                            lemma_states_count_push(before, result.at@.last());
                            assert(result.at@ == before.push(result.at@.last()));
                            assert(result.at@[0] == before[0]);
                            assert forall|k2: int, j2: int|
                                0 <= k2 < result.at@.len() && 0 <= j2 < result.at@[k2].1@.len() implies state_sound(
                                *procedure,
                                entry_set,
                                result.at@[k2].0@,
                                #[trigger] result.at@[k2].1@[j2],
                            ) by {
                                if k2 < before.len() {
                                    assert(result.at@[k2] == before[k2]);
                                }
                            }
                        }
                        true
                    },
                };
                if inserted {
                    count = count + 1;
                    if count > max_states {
                        result.truncated = true;
                        return result;
                    }
                    let ghost queue_before = queue@;
                    queue.push((target, next));
                    proof {
                        assert forall|q: int| 0 <= q < queue@.len() implies state_sound(
                            *procedure,
                            entry_set,
                            procedure.nodes@[queue@[q].0 as int].id@,
                            (#[trigger] queue@[q]).1,
                        ) by {
                            if q < queue_before.len() {
                                assert(queue@[q] == queue_before[q]);
                            }
                        }
                    }
                }
            }
        }
        result
    }

    pub(crate) fn states_at(&self, node: &NodeId) -> (res: Option<usize>)
        ensures
            res matches Some(k) ==> first_entry(self.at@, node@, k as int),
            res is None ==> forall|k: int| 0 <= k < self.at@.len() ==> (#[trigger] self.at@[k]).0@ != node@,
            res is None ==> states_of(self.at@, node@) == Seq::<BranchState>::empty(),
            res matches Some(k) ==> states_of(self.at@, node@) == self.at@[k as int].1@,
    {
        let mut k: usize = 0;
        while k < self.at.len()
            invariant
                k <= self.at@.len(),
                forall|j: int| 0 <= j < k ==> (#[trigger] self.at@[j]).0@ != node@,
            decreases self.at.len() - k,
        {
            if self.at[k].0.same(node) {
                proof {
                    lemma_first_entry_unique(self.at@, node@, k as int);
                }
                return Some(k);
            }
            k = k + 1;
        }
        None
    }

    /// Copies of the states that reach the node.
    pub fn states_reaching(&self, node: &NodeId) -> (res: Vec<BranchState>)
        ensures
            res@.len() == states_of(self.at@, node@).len(),
            forall|i: int| 0 <= i < res@.len() ==> state_same(#[trigger] res@[i], states_of(self.at@, node@)[i]),
    {
        let mut out: Vec<BranchState> = Vec::new();
        if let Some(s) = self.states_at(node) {
            let states = &self.at[s].1;
            let mut j: usize = 0;
            while j < states.len()
                invariant
                    j <= states@.len(),
                    out@.len() == j,
                    forall|i: int| 0 <= i < j ==> state_same(#[trigger] out@[i], states@[i]),
                decreases states.len() - j,
            {
                out.push(clone_state(&states[j]));
                j = j + 1;
            }
        }
        out
    }

    /// Whether some state reaches the node.
    pub fn reaches(&self, node: &NodeId) -> (res: bool)
        ensures
            res == exists|k: int| 0 <= k < self.at@.len() && (#[trigger] self.at@[k]).0@ == node@,
    {
        self.states_at(node).is_some()
    }

    /// The conditions (joined labels, or none) of the states at a node whose
    /// facts pass the test, without repeats.
    pub fn conditions_for(&self, node: &NodeId, test: &FactTest) -> (res: Vec<Option<String>>)
        ensures
            forall|c: int| 0 <= c < res@.len() ==> condition_witnessed(
                states_of(self.at@, node@),
                *test,
                #[trigger] res@[c],
            ),
            forall|j: int| 0 <= j < states_of(self.at@, node@).len() && state_passes(
                *test,
                #[trigger] states_of(self.at@, node@)[j],
            ) ==> condition_listed(res@, states_of(self.at@, node@)[j].labels@),
    {
        match self.states_at(node) {
            Some(s) => passing_conditions(&self.at[s].1, test),
            None => Vec::new(),
        }
    }

    /// Whether an undecided state with this condition reaches the node.
    pub fn condition_unproven(&self, node: &NodeId, condition: &Option<String>) -> (res: bool)
        ensures
            res == exists|j: int|
                0 <= j < states_of(self.at@, node@).len() && (#[trigger] states_of(
                    self.at@,
                    node@,
                )[j]).unproven && condition_of(states_of(self.at@, node@)[j].labels@) == text_view(
                    *condition,
                ),
    {
        if let Some(s) = self.states_at(node) {
            let states = &self.at[s].1;
            let mut j: usize = 0;
            while j < states.len()
                invariant
                    j <= states@.len(),
                    states@ == states_of(self.at@, node@),
                    forall|i: int| 0 <= i < j ==> !((#[trigger] states@[i]).unproven && condition_of(
                        states@[i].labels@,
                    ) == text_view(*condition)),
                decreases states.len() - j,
            {
                let label = label_condition(&states[j].labels);
                if states[j].unproven && option_text_same(&label, condition) {
                    return true;
                }
                j = j + 1;
            }
        }
        false
    }
}

} // verus!
