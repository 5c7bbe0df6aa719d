//! Plain text: white space, path segments, decimal numbers, joining and ordering.

use vstd::prelude::*;

verus! {

/// The characters with the Unicode property `White_Space`.
pub open spec fn white_space(c: char) -> bool {
    let code = c as int;
    ||| 0x9 <= code <= 0xD
    ||| code == 0x20
    ||| code == 0x85
    ||| code == 0xA0
    ||| code == 0x1680
    ||| 0x2000 <= code <= 0x200A
    ||| code == 0x2028
    ||| code == 0x2029
    ||| code == 0x202F
    ||| code == 0x205F
    ||| code == 0x3000
}

/// `text` without the white space it starts with.
pub open spec fn trimmed_start(text: Seq<char>) -> Seq<char>
    decreases text.len(),
{
    if text.len() > 0 && white_space(text[0]) {
        trimmed_start(text.drop_first())
    } else {
        text
    }
}

/// `text` without the white space it ends with.
pub open spec fn trimmed_end(text: Seq<char>) -> Seq<char>
    decreases text.len(),
{
    if text.len() > 0 && white_space(text.last()) {
        trimmed_end(text.drop_last())
    } else {
        text
    }
}

/// `text` without the white space around it.
pub open spec fn trimmed(text: Seq<char>) -> Seq<char> {
    trimmed_end(trimmed_start(text))
}

/// Whether `text` holds nothing but white space.
pub open spec fn blank(text: Seq<char>) -> bool {
    forall|i: int| 0 <= i < text.len() ==> white_space(#[trigger] text[i])
}

/// What follows the last `/` of `text`; all of it where there is none.
pub open spec fn last_segment(text: Seq<char>) -> Seq<char>
    decreases text.len(),
{
    if text.len() == 0 || text.last() == '/' {
        Seq::empty()
    } else {
        last_segment(text.drop_last()).push(text.last())
    }
}

/// The decimal digit `n`.
pub open spec fn digit(n: nat) -> char {
    (('0' as int) + n) as char
}

/// `n` in decimal, without leading zeros.
pub open spec fn decimal(n: nat) -> Seq<char>
    decreases n,
{
    if n < 10 {
        seq![digit(n)]
    } else {
        decimal(n / 10).push(digit(n % 10))
    }
}

/// The texts of `parts`, with `separator` between neighbours.
pub open spec fn joined(parts: Seq<Seq<char>>, separator: Seq<char>) -> Seq<char>
    decreases parts.len(),
{
    if parts.len() == 0 {
        Seq::empty()
    } else if parts.len() == 1 {
        parts[0]
    } else {
        joined(parts.drop_last(), separator) + separator + parts.last()
    }
}

/// The order of texts by their characters' code points, a proper prefix coming first.
pub open spec fn precedes(a: Seq<char>, b: Seq<char>) -> bool
    decreases a.len(),
{
    if b.len() == 0 {
        false
    } else if a.len() == 0 {
        true
    } else if a[0] != b[0] {
        (a[0] as int) < (b[0] as int)
    } else {
        precedes(a.drop_first(), b.drop_first())
    }
}

/// Whether every text of `list` precedes all that follow it.
pub open spec fn ascending(list: Seq<Seq<char>>) -> bool {
    forall|i: int, j: int|
        0 <= i < j < list.len() ==> precedes(#[trigger] list[i], #[trigger] list[j])
}

/// Whether `list` holds the texts of `from`, each of them once and in ascending order.
pub open spec fn canonical(list: Seq<Seq<char>>, from: Seq<Seq<char>>) -> bool {
    &&& ascending(list)
    &&& forall|t: Seq<char>| #[trigger] list.contains(t) <==> from.contains(t)
}

/// Trimming leaves nothing exactly of what is blank.
pub proof fn trimmed_is_empty_iff_blank(text: Seq<char>)
    ensures
        trimmed(text).len() == 0 <==> blank(text),
    decreases text.len(),
{
    if text.len() > 0 && white_space(text[0]) {
        let rest = text.drop_first();
        trimmed_is_empty_iff_blank(rest);
        assert(blank(rest) ==> blank(text)) by {
            if blank(rest) {
                assert forall|i: int| 0 <= i < text.len() implies white_space(
                    #[trigger] text[i],
                ) by {
                    if i > 0 {
                        assert(rest[i - 1] == text[i]);
                    }
                }
            }
        }
        assert(blank(text) ==> blank(rest)) by {
            if blank(text) {
                assert forall|i: int| 0 <= i < rest.len() implies white_space(
                    #[trigger] rest[i],
                ) by {
                    assert(rest[i] == text[i + 1]);
                }
            }
        }
    } else if text.len() > 0 {
        assert(!white_space(text[0]));
        lemma_trimmed_end_keeps_head(text);
    }
}

/// A text that does not start with white space keeps its first character.
proof fn lemma_trimmed_end_keeps_head(text: Seq<char>)
    requires
        text.len() > 0,
        !white_space(text[0]),
    ensures
        trimmed_end(text).len() > 0,
    decreases text.len(),
{
    if white_space(text.last()) {
        assert(text.drop_last()[0] == text[0]);
        lemma_trimmed_end_keeps_head(text.drop_last());
    }
}

/// No text precedes itself.
pub proof fn precedes_is_irreflexive(a: Seq<char>)
    ensures
        !precedes(a, a),
    decreases a.len(),
{
    if a.len() > 0 {
        precedes_is_irreflexive(a.drop_first());
    }
}

/// Of two different texts one precedes the other.
pub proof fn precedes_is_total(a: Seq<char>, b: Seq<char>)
    ensures
        a == b || precedes(a, b) || precedes(b, a),
    decreases a.len(),
{
    if a.len() > 0 && b.len() > 0 && a[0] == b[0] {
        precedes_is_total(a.drop_first(), b.drop_first());
        if a.drop_first() == b.drop_first() {
            assert(a =~= seq![a[0]] + a.drop_first());
            assert(b =~= seq![b[0]] + b.drop_first());
        }
    } else if a.len() == 0 && b.len() == 0 {
        assert(a =~= b);
    }
}

/// What precedes a text precedes all that the text precedes.
pub proof fn precedes_is_transitive(a: Seq<char>, b: Seq<char>, c: Seq<char>)
    requires
        precedes(a, b),
        precedes(b, c),
    ensures
        precedes(a, c),
    decreases a.len(),
{
    if a.len() > 0 && a[0] == b[0] && b[0] == c[0] {
        precedes_is_transitive(a.drop_first(), b.drop_first(), c.drop_first());
    }
}

/// Whether `c` has the Unicode property `White_Space`.
pub fn is_white_space(c: char) -> (res: bool)
    ensures
        res == white_space(c),
{
    let code: u32 = c as u32;
    (0x9 <= code && code <= 0xD) || code == 0x20 || code == 0x85 || code == 0xA0 || code == 0x1680
        || (0x2000 <= code && code <= 0x200A) || code == 0x2028 || code == 0x2029 || code == 0x202F
        || code == 0x205F || code == 0x3000
}

/// The characters of `text`.
pub fn chars_of(text: &str) -> (res: Vec<char>)
    ensures
        res@ == text@,
{
    let mut res: Vec<char> = Vec::new();
    for c in it: text.chars()
        invariant
            it.seq() == text@,
            res@ == text@.take(it.index()),
    {
        res.push(c);
    }
    res
}

/// `text` without the white space around it.
pub fn trim(text: &str) -> (res: &str)
    ensures
        res@ == trimmed(text@),
{
    let chars: Vec<char> = chars_of(text);
    let mut start: usize = 0;
    assert(text@.skip(0) =~= text@);
    while start < chars.len() && is_white_space(chars[start])
        invariant
            start <= chars@.len(),
            chars@ == text@,
            trimmed_start(text@) == trimmed_start(text@.skip(start as int)),
        decreases chars@.len() - start,
    {
        assert(text@.skip(start as int).drop_first() =~= text@.skip(start + 1));
        start = start + 1;
    }
    let ghost rest = text@.skip(start as int);
    assert(trimmed_start(text@) == rest);
    let mut end: usize = chars.len();
    assert(rest.take(rest.len() as int) =~= rest);
    while start < end && is_white_space(chars[end - 1])
        invariant
            start <= end <= chars@.len(),
            chars@ == text@,
            rest == text@.skip(start as int),
            trimmed_end(rest) == trimmed_end(rest.take(end - start)),
        decreases end - start,
    {
        assert(rest.take(end - start).drop_last() =~= rest.take(end - start - 1));
        end = end - 1;
    }
    assert(rest.take(end - start) =~= text@.subrange(start as int, end as int));
    text.substring_char(start, end)
}

/// What follows the last `/` of `text`; all of it where there is none.
pub fn segment_after_slash(text: &str) -> (res: &str)
    ensures
        res@ == last_segment(text@),
{
    let chars: Vec<char> = chars_of(text);
    let mut start: usize = chars.len();
    assert(text@.take(text@.len() as int) =~= text@);
    assert(last_segment(text@) + text@.skip(text@.len() as int) =~= last_segment(text@));
    while start > 0 && chars[start - 1] != '/'
        invariant
            start <= chars@.len(),
            chars@ == text@,
            last_segment(text@) == last_segment(text@.take(start as int)) + text@.skip(
                start as int,
            ),
        decreases start,
    {
        assert(text@.take(start as int).drop_last() =~= text@.take(start - 1));
        assert(seq![text@[start - 1]] + text@.skip(start as int) =~= text@.skip(start - 1));
        start = start - 1;
    }
    assert(text@.skip(start as int) =~= text@.subrange(start as int, text@.len() as int));
    text.substring_char(start, chars.len())
}

/// Whether `text` holds nothing but white space.
pub fn is_blank(text: &str) -> (res: bool)
    ensures
        res == blank(text@),
{
    proof {
        trimmed_is_empty_iff_blank(text@);
    }
    trim(text).is_empty()
}

/// The decimal digit `n`, as a text.
fn digit_text(n: u64) -> (res: &'static str)
    requires
        n < 10,
    ensures
        res@ == seq![digit(n as nat)],
{
    proof {
        reveal_strlit("0");
        reveal_strlit("1");
        reveal_strlit("2");
        reveal_strlit("3");
        reveal_strlit("4");
        reveal_strlit("5");
        reveal_strlit("6");
        reveal_strlit("7");
        reveal_strlit("8");
        reveal_strlit("9");
    }
    if n == 0 {
        "0"
    } else if n == 1 {
        "1"
    } else if n == 2 {
        "2"
    } else if n == 3 {
        "3"
    } else if n == 4 {
        "4"
    } else if n == 5 {
        "5"
    } else if n == 6 {
        "6"
    } else if n == 7 {
        "7"
    } else if n == 8 {
        "8"
    } else {
        "9"
    }
}

/// `n` in decimal, without leading zeros.
pub fn decimal_text(n: u64) -> (res: String)
    ensures
        res@ == decimal(n as nat),
    decreases n,
{
    if n < 10 {
        digit_text(n).to_string()
    } else {
        let mut res: String = decimal_text(n / 10);
        res.append(digit_text(n % 10));
        res
    }
}

/// The texts of `parts`, with `separator` between neighbours.
pub fn join(parts: &[String], separator: &str) -> (res: String)
    ensures
        res@ == joined(parts.deep_view(), separator@),
{
    let ghost texts = parts.deep_view();
    let mut res: String = String::new();
    let mut i: usize = 0;
    while i < parts.len()
        invariant
            i <= parts@.len(),
            texts == parts.deep_view(),
            res@ == joined(texts.take(i as int), separator@),
        decreases parts@.len() - i,
    {
        assert(texts.take(i + 1).drop_last() =~= texts.take(i as int));
        if i > 0 {
            res.append(separator);
        }
        res.append(parts[i].as_str());
        assert(i == 0 ==> res@ =~= texts[0]);
        i = i + 1;
    }
    assert(texts.take(i as int) =~= texts);
    res
}

/// A copy of `list`.
pub fn copied(list: &Vec<String>) -> (res: Vec<String>)
    ensures
        res.deep_view() == list.deep_view(),
{
    let res: Vec<String> = list.clone();
    assert(res.deep_view() =~= list.deep_view());
    res
}

/// Whether two lists hold the same texts in the same order.
pub fn same_texts(a: &Vec<String>, b: &Vec<String>) -> (res: bool)
    ensures
        res == (a.deep_view() == b.deep_view()),
{
    let ghost left = a.deep_view();
    let ghost right = b.deep_view();
    if a.len() != b.len() {
        assert(left.len() != right.len());
        return false;
    }
    let mut i: usize = 0;
    while i < a.len()
        invariant
            i <= a@.len(),
            a@.len() == b@.len(),
            left == a.deep_view(),
            right == b.deep_view(),
            forall|j: int| 0 <= j < i ==> #[trigger] left[j] == right[j],
        decreases a@.len() - i,
    {
        if !(a[i] == b[i]) {
            assert(left[i as int] != right[i as int]);
            return false;
        }
        i = i + 1;
    }
    assert(left =~= right);
    true
}

/// Whether `a` comes before `b` in the order of code points.
pub fn comes_before(a: &str, b: &str) -> (res: bool)
    ensures
        res == precedes(a@, b@),
{
    let left: Vec<char> = chars_of(a);
    let right: Vec<char> = chars_of(b);
    let mut i: usize = 0;
    assert(a@.skip(0) =~= a@ && b@.skip(0) =~= b@);
    while i < left.len() && i < right.len() && left[i] == right[i]
        invariant
            i <= left@.len(),
            i <= right@.len(),
            left@ == a@,
            right@ == b@,
            precedes(a@, b@) == precedes(a@.skip(i as int), b@.skip(i as int)),
        decreases left@.len() - i,
    {
        assert(a@.skip(i as int).drop_first() =~= a@.skip(i + 1));
        assert(b@.skip(i as int).drop_first() =~= b@.skip(i + 1));
        i = i + 1;
    }
    if i == right.len() {
        false
    } else if i == left.len() {
        true
    } else {
        let l: char = left[i];
        let r: char = right[i];
        l < r
    }
}

/// Puts `text` into the ascending `list`, unless `list` holds it already.
fn put_in_order(list: &mut Vec<String>, text: String)
    requires
        ascending(old(list).deep_view()),
    ensures
        canonical(final(list).deep_view(), old(list).deep_view().push(text@)),
{
    let ghost before = list.deep_view();
    let mut at: usize = 0;
    while at < list.len() && comes_before(list[at].as_str(), text.as_str())
        invariant
            at <= list@.len(),
            before == list.deep_view(),
            forall|i: int| 0 <= i < at ==> precedes(#[trigger] before[i], text@),
        decreases list@.len() - at,
    {
        at = at + 1;
    }
    if at < list.len() && list[at] == text {
        assert(before[at as int] == text@);
        assert forall|t: Seq<char>| #[trigger] before.contains(t) <==> before.push(
            text@,
        ).contains(t) by {
            lemma_push_contains(before, text@, t);
        }
    } else {
        list.insert(at, text);
        let ghost after = list.deep_view();
        assert(after =~= before.insert(at as int, text@));
        assert forall|i: int, j: int| 0 <= i < j < after.len() implies precedes(
            #[trigger] after[i],
            #[trigger] after[j],
        ) by {
            if j == at {
                assert(after[i] == before[i]);
            } else if i == at {
                assert(after[j] == before[j - 1]);
                precedes_is_total(before[at as int], text@);
                if j - 1 > at {
                    precedes_is_transitive(text@, before[at as int], before[j - 1]);
                }
            } else {
                let i0 = if i < at { i } else { i - 1 };
                let j0 = if j < at { j } else { j - 1 };
                assert(precedes(before[i0], before[j0]));
            }
        }
        assert forall|t: Seq<char>| #[trigger] after.contains(t) <==> before.push(text@).contains(
            t,
        ) by {
            lemma_push_contains(before, text@, t);
            if after.contains(t) {
                let i = after.index_of(t);
                if i != at {
                    let i0 = if i < at { i } else { i - 1 };
                    assert(before[i0] == t);
                }
            }
            assert(after[at as int] == text@);
            if before.contains(t) {
                let i = before.index_of(t);
                let i1 = if i < at { i } else { i + 1 };
                assert(after[i1] == t);
            }
        }
    }
}

/// The texts of `list` in ascending order, each of them once.
pub fn sorted_without_repeats(list: Vec<String>) -> (res: Vec<String>)
    ensures
        canonical(res.deep_view(), list.deep_view()),
{
    let ghost texts = list.deep_view();
    let mut res: Vec<String> = Vec::new();
    let mut i: usize = 0;
    while i < list.len()
        invariant
            i <= list@.len(),
            texts == list.deep_view(),
            canonical(res.deep_view(), texts.take(i as int)),
        decreases list@.len() - i,
    {
        let ghost before = res.deep_view();
        put_in_order(&mut res, list[i].clone());
        assert(texts.take(i + 1) =~= texts.take(i as int).push(texts[i as int]));
        assert forall|t: Seq<char>| #[trigger] res.deep_view().contains(t) <==> texts.take(
            i + 1,
        ).contains(t) by {
            lemma_push_contains(before, texts[i as int], t);
            lemma_push_contains(texts.take(i as int), texts[i as int], t);
            assert(before.contains(t) <==> texts.take(i as int).contains(t));
        }
        i = i + 1;
    }
    assert(texts.take(i as int) =~= texts);
    res
}

/// In ascending order there is one way to list given texts.
pub proof fn canonical_lists_are_unique(
    a: Seq<Seq<char>>,
    b: Seq<Seq<char>>,
    from: Seq<Seq<char>>,
    same: Seq<Seq<char>>,
)
    requires
        canonical(a, from),
        canonical(b, same),
        forall|t: Seq<char>| #[trigger] from.contains(t) <==> same.contains(t),
    ensures
        a == b,
{
    assert forall|t: Seq<char>| #[trigger] a.contains(t) <==> b.contains(t) by {
        assert(from.contains(t) <==> same.contains(t));
    }
    lemma_ascending_lists(a, b);
}

/// Ascending lists that hold the same texts are equal.
proof fn lemma_ascending_lists(a: Seq<Seq<char>>, b: Seq<Seq<char>>)
    requires
        ascending(a),
        ascending(b),
        forall|t: Seq<char>| #[trigger] a.contains(t) <==> b.contains(t),
    ensures
        a == b,
    decreases a.len(),
{
    if a.len() == 0 {
        if b.len() > 0 {
            assert(b.contains(b[0]));
            assert(a.contains(b[0]));
        }
        assert(a =~= b);
    } else {
        assert(a.contains(a.last()));
        assert(b.contains(a.last()));
        assert(b.contains(b.last()));
        assert(a.contains(b.last()));
        let i = b.index_of(a.last());
        let j = a.index_of(b.last());
        if i < b.len() - 1 && j < a.len() - 1 {
            assert(precedes(b[i], b[b.len() - 1]));
            assert(precedes(a[j], a[a.len() - 1]));
            precedes_is_transitive(a.last(), b.last(), a.last());
            precedes_is_irreflexive(a.last());
        }
        let x = a.last();
        assert(b.last() == x);
        let a0 = a.drop_last();
        let b0 = b.drop_last();
        assert(a =~= a0.push(x));
        assert(b =~= b0.push(x));
        assert forall|t: Seq<char>| #[trigger] a0.contains(t) <==> b0.contains(t) by {
            lemma_push_contains(a0, x, t);
            lemma_push_contains(b0, x, t);
            assert(a.contains(t) <==> b.contains(t));
            precedes_is_irreflexive(x);
            if a0.contains(x) {
                let k = a0.index_of(x);
                assert(precedes(a[k], a[a.len() - 1]));
            }
            if b0.contains(x) {
                let k = b0.index_of(x);
                assert(precedes(b[k], b[b.len() - 1]));
            }
        }
        assert forall|k: int, l: int| 0 <= k < l < a0.len() implies precedes(
            #[trigger] a0[k],
            #[trigger] a0[l],
        ) by {
            assert(a0[k] == a[k] && a0[l] == a[l]);
        }
        assert forall|k: int, l: int| 0 <= k < l < b0.len() implies precedes(
            #[trigger] b0[k],
            #[trigger] b0[l],
        ) by {
            assert(b0[k] == b[k] && b0[l] == b[l]);
        }
        lemma_ascending_lists(a0, b0);
    }
}

/// A list without repeats is empty exactly where what it was made from is.
pub proof fn lemma_canonical_empty(list: Seq<Seq<char>>, from: Seq<Seq<char>>)
    requires
        canonical(list, from),
    ensures
        list.len() == 0 <==> from.len() == 0,
{
    if list.len() > 0 {
        assert(list.contains(list[0]));
        assert(from.contains(list[0]));
    }
    if from.len() > 0 {
        assert(from.contains(from[0]));
        assert(list.contains(from[0]));
    }
}

/// What a sequence holds once an element is put at its end.
pub proof fn lemma_push_contains<A>(s: Seq<A>, x: A, y: A)
    ensures
        s.push(x).contains(y) <==> s.contains(y) || x == y,
{
    if s.contains(y) {
        let i = s.index_of(y);
        assert(s.push(x)[i] == y);
    }
    assert(s.push(x)[s.len() as int] == x);
    if s.push(x).contains(y) {
        let i = s.push(x).index_of(y);
        if i < s.len() {
            assert(s[i] == y);
        }
    }
}

/// The order of texts is that of dictionaries: one text precedes another where, after what both
/// start with, it ends or goes on with the smaller character.
pub proof fn precedes_is_lexicographic(a: Seq<char>, b: Seq<char>)
    ensures
        precedes(a, b) <==> exists|k: int|
            0 <= k <= a.len() && k < b.len() && #[trigger] a.take(k) == b.take(k) && (k == a.len()
                || (a[k] as int) < (b[k] as int)),
    decreases a.len(),
{
    if a.len() > 0 && b.len() > 0 && a[0] == b[0] {
        let a0 = a.drop_first();
        let b0 = b.drop_first();
        precedes_is_lexicographic(a0, b0);
        if precedes(a, b) {
            let k = choose|k: int|
                0 <= k <= a0.len() && k < b0.len() && #[trigger] a0.take(k) == b0.take(k) && (k
                    == a0.len() || (a0[k] as int) < (b0[k] as int));
            assert(a.take(k + 1) =~= seq![a[0]] + a0.take(k));
            assert(b.take(k + 1) =~= seq![b[0]] + b0.take(k));
        }
        if exists|k: int|
            0 <= k <= a.len() && k < b.len() && #[trigger] a.take(k) == b.take(k) && (k == a.len()
                || (a[k] as int) < (b[k] as int)) {
            let k = choose|k: int|
                0 <= k <= a.len() && k < b.len() && #[trigger] a.take(k) == b.take(k) && (k
                    == a.len() || (a[k] as int) < (b[k] as int));
            assert(k > 0);
            assert(a0.take(k - 1) =~= a.take(k).drop_first());
            assert(b0.take(k - 1) =~= b.take(k).drop_first());
        }
    } else {
        if precedes(a, b) {
            assert(a.take(0) =~= b.take(0));
        }
        if exists|k: int|
            0 <= k <= a.len() && k < b.len() && #[trigger] a.take(k) == b.take(k) && (k == a.len()
                || (a[k] as int) < (b[k] as int)) {
            let k = choose|k: int|
                0 <= k <= a.len() && k < b.len() && #[trigger] a.take(k) == b.take(k) && (k
                    == a.len() || (a[k] as int) < (b[k] as int));
            if k > 0 {
                assert(a.take(k)[0] == a[0]);
                assert(b.take(k)[0] == b[0]);
            }
        }
    }
}

/// Trimming takes off white space at both ends and nothing else: what is left starts and ends with
/// other characters.
pub proof fn trimming_takes_off_the_white_space_around(text: Seq<char>)
    ensures
        exists|i: int, j: int|
            0 <= i <= j <= text.len() && trimmed(text) == #[trigger] text.subrange(i, j) && (
            forall|k: int| 0 <= k < i || j <= k < text.len() ==> white_space(#[trigger] text[k]))
                && (i < j ==> !white_space(text[i]) && !white_space(text[j - 1])),
{
    let i = lemma_trimmed_start(text);
    let rest = trimmed_start(text);
    let n = lemma_trimmed_end(rest);
    assert(trimmed(text) =~= text.subrange(i, i + n));
    assert forall|k: int| 0 <= k < i || i + n <= k < text.len() implies white_space(
        #[trigger] text[k],
    ) by {
        if k >= i + n {
            assert(rest[k - i] == text[k]);
        }
    }
    if n > 0 {
        assert(rest[0] == text[i] && rest[n - 1] == text[i + n - 1]);
    }
}

proof fn lemma_trimmed_start(text: Seq<char>) -> (i: int)
    ensures
        0 <= i <= text.len(),
        trimmed_start(text) == text.skip(i),
        forall|k: int| 0 <= k < i ==> white_space(#[trigger] text[k]),
        i < text.len() ==> !white_space(text[i]),
    decreases text.len(),
{
    if text.len() > 0 && white_space(text[0]) {
        let rest = text.drop_first();
        let i = lemma_trimmed_start(rest);
        assert(text.skip(i + 1) =~= rest.skip(i));
        assert forall|k: int| 0 <= k < i + 1 implies white_space(#[trigger] text[k]) by {
            if k > 0 {
                assert(rest[k - 1] == text[k]);
            }
        }
        i + 1
    } else {
        assert(text.skip(0) =~= text);
        0
    }
}

proof fn lemma_trimmed_end(text: Seq<char>) -> (n: int)
    ensures
        0 <= n <= text.len(),
        trimmed_end(text) == text.take(n),
        forall|k: int| n <= k < text.len() ==> white_space(#[trigger] text[k]),
        n > 0 ==> !white_space(text[n - 1]),
    decreases text.len(),
{
    if text.len() > 0 && white_space(text.last()) {
        let rest = text.drop_last();
        let n = lemma_trimmed_end(rest);
        assert(text.take(n) =~= rest.take(n));
        assert forall|k: int| n <= k < text.len() implies white_space(#[trigger] text[k]) by {
            if k < rest.len() {
                assert(rest[k] == text[k]);
            }
        }
        n
    } else {
        assert(text.take(text.len() as int) =~= text);
        text.len() as int
    }
}

/// The last segment holds no `/`, and stands at the end of the text behind one, or is all of it.
pub proof fn last_segment_follows_the_last_slash(text: Seq<char>)
    ensures
        !last_segment(text).contains('/'),
        last_segment(text).len() <= text.len(),
        last_segment(text) == text.skip(text.len() - last_segment(text).len()),
        last_segment(text).len() < text.len() ==> text[text.len() - last_segment(text).len() - 1]
            == '/',
    decreases text.len(),
{
    if text.len() == 0 || text.last() == '/' {
        assert(text.skip(text.len() as int) =~= Seq::empty());
    } else {
        let rest = text.drop_last();
        last_segment_follows_the_last_slash(rest);
        let head = last_segment(rest);
        lemma_push_contains(head, text.last(), '/');
        assert(head.push(text.last()) =~= text.skip(text.len() - head.len() - 1));
    }
}

/// The number that a text of digits stands for.
pub open spec fn number_read(text: Seq<char>) -> int
    decreases text.len(),
{
    if text.len() == 0 {
        0
    } else {
        10 * number_read(text.drop_last()) + (text.last() as int) - ('0' as int)
    }
}

/// A number in decimal is made of digits, is read as the number, and has no leading zero.
pub proof fn decimals_are_read_back(n: nat)
    ensures
        number_read(decimal(n)) == n,
        decimal(n).len() > 0,
        forall|i: int| 0 <= i < decimal(n).len() ==> '0' <= #[trigger] decimal(n)[i] <= '9',
        decimal(n)[0] == '0' ==> n == 0 && decimal(n).len() == 1,
    decreases n,
{
    let text = decimal(n);
    if n < 10 {
        assert(text.drop_last() =~= Seq::empty());
        assert(number_read(Seq::empty()) == 0);
    } else {
        decimals_are_read_back(n / 10);
        assert(text.drop_last() =~= decimal(n / 10));
    }
}

/// Joining no texts gives none, joining one gives it, and another text comes behind a separator.
pub proof fn joining_puts_separators_between(
    parts: Seq<Seq<char>>,
    last: Seq<char>,
    separator: Seq<char>,
)
    ensures
        joined(Seq::empty(), separator) == Seq::<char>::empty(),
        joined(seq![last], separator) == last,
        parts.len() > 0 ==> joined(parts.push(last), separator) == joined(parts, separator)
            + separator + last,
{
    assert(parts.push(last).drop_last() =~= parts);
}

/// Each of the texts that are joined stands in what comes of it.
pub proof fn joined_texts_hold_each_part(parts: Seq<Seq<char>>, separator: Seq<char>, i: int)
    requires
        0 <= i < parts.len(),
    ensures
        exists|at: int|
            0 <= at && at + parts[i].len() <= joined(parts, separator).len() && #[trigger] joined(
                parts,
                separator,
            ).subrange(at, at + parts[i].len()) == parts[i],
    decreases parts.len(),
{
    let text = joined(parts, separator);
    let n = parts[i].len() as int;
    if parts.len() == 1 {
        assert(text.subrange(0, 0 + n) =~= parts[i]);
    } else if i == parts.len() - 1 {
        let at = text.len() - n;
        assert(text.subrange(at, at + n) =~= parts[i]);
    } else {
        let shorter = joined(parts.drop_last(), separator);
        joined_texts_hold_each_part(parts.drop_last(), separator, i);
        assert(parts.drop_last()[i] == parts[i]);
        let at = choose|at: int|
            0 <= at && at + n <= shorter.len() && #[trigger] shorter.subrange(at, at + n)
                == parts[i];
        assert(text.subrange(at, at + n) =~= shorter.subrange(at, at + n));
    }
}

/// A canonical list holds the same texts as what it is made from, each at one place, and each
/// precedes the next.
pub proof fn canonical_lists_are_strictly_ascending(
    list: Seq<Seq<char>>,
    from: Seq<Seq<char>>,
    i: int,
    j: int,
    k: int,
)
    requires
        canonical(list, from),
        0 <= i < j < list.len(),
        0 <= k < from.len(),
    ensures
        precedes(list[i], list[j]),
        list[i] != list[j],
        exists|l: int| 0 <= l < list.len() && #[trigger] list[l] == from[k],
        exists|l: int| 0 <= l < from.len() && #[trigger] from[l] == list[i],
{
    precedes_is_irreflexive(list[i]);
    assert(from.contains(from[k]));
    assert(list.contains(from[k]));
    assert(list.contains(list[i]));
    assert(from.contains(list[i]));
}

} // verus!
