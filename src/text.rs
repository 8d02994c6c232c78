//! Path templates: placeholders, decimal numerals, and the derived pretty path.

use vstd::prelude::*;

verus! {

/// The decimal digit for `d < 10`.
pub open spec fn digit(d: nat) -> char {
    if d == 0 {
        '0'
    } else if d == 1 {
        '1'
    } else if d == 2 {
        '2'
    } else if d == 3 {
        '3'
    } else if d == 4 {
        '4'
    } else if d == 5 {
        '5'
    } else if d == 6 {
        '6'
    } else if d == 7 {
        '7'
    } else if d == 8 {
        '8'
    } else {
        '9'
    }
}

/// The decimal numeral of `n`, without leading zeros.
pub open spec fn decimal(n: nat) -> Seq<char>
    decreases n,
{
    if n < 10 {
        seq![digit(n)]
    } else {
        decimal(n / 10).push(digit(n % 10))
    }
}

/// The placeholder that stands in a path template for the parameter at `index`.
pub open spec fn placeholder(index: nat) -> Seq<char> {
    seq!['{'] + decimal(index) + seq!['}']
}

/// How many opening braces `s` holds.
pub open spec fn brace_count(s: Seq<char>) -> nat
    decreases s.len(),
{
    if s.len() == 0 {
        0
    } else {
        (if s[0] == '{' {
            1nat
        } else {
            0nat
        }) + brace_count(s.drop_first())
    }
}

/// The least index `k` in `from .. n` whose placeholder starts `p`.
pub open spec fn placeholder_index(p: Seq<char>, n: nat, from: nat) -> Option<nat>
    decreases n - from,
{
    if from >= n {
        None
    } else if placeholder(from).is_prefix_of(p) {
        Some(from)
    } else {
        placeholder_index(p, n, from + 1)
    }
}

/// The template `p` with each placeholder of an index below `names.len()`
/// replaced by the braced name at that index, in one left-to-right pass.
pub open spec fn pretty_of(p: Seq<char>, names: Seq<Seq<char>>) -> Seq<char>
    decreases p.len(),
{
    if p.len() == 0 {
        Seq::empty()
    } else {
        match placeholder_index(p, names.len(), 0) {
            Some(k) => if k < names.len() && placeholder(k).len() <= p.len() {
                seq!['{'] + names[k as int] + seq!['}'] + pretty_of(
                    p.skip(placeholder(k).len() as int),
                    names,
                )
            } else {
                seq![p[0]] + pretty_of(p.skip(1), names)
            },
            None => seq![p[0]] + pretty_of(p.skip(1), names),
        }
    }
}

/// The template `path` after a segment is appended, with a separating slash
/// unless the template already ends in one.
pub open spec fn pushed(path: Seq<char>, segment: Seq<char>) -> Seq<char> {
    if path.len() > 0 && path.last() == '/' {
        path + segment
    } else {
        path.push('/') + segment
    }
}

pub proof fn lemma_placeholder_index_prefix(p: Seq<char>, n: nat, from: nat)
    ensures
        placeholder_index(p, n, from) matches Some(k) ==> from <= k < n && placeholder(k).is_prefix_of(p),
    decreases n - from,
{
    if from < n && !placeholder(from).is_prefix_of(p) {
        lemma_placeholder_index_prefix(p, n, from + 1);
    }
}

pub proof fn lemma_brace_count_concat(a: Seq<char>, b: Seq<char>)
    ensures
        brace_count(a + b) == brace_count(a) + brace_count(b),
    decreases a.len(),
{
    if a.len() == 0 {
        assert(a + b =~= b);
    } else {
        assert((a + b).drop_first() =~= a.drop_first() + b);
        lemma_brace_count_concat(a.drop_first(), b);
    }
}

pub proof fn lemma_brace_count_single(c: char)
    ensures
        brace_count(seq![c]) == (if c == '{' { 1nat } else { 0nat }),
{
    assert(seq![c].drop_first() =~= Seq::<char>::empty());
    assert(brace_count(Seq::<char>::empty()) == 0);
}

pub proof fn lemma_decimal_has_no_brace(n: nat)
    ensures
        brace_count(decimal(n)) == 0,
        decimal(n).len() >= 1,
    decreases n,
{
    if n < 10 {
        lemma_brace_count_single(digit(n));
    } else {
        lemma_decimal_has_no_brace(n / 10);
        lemma_brace_count_concat(decimal(n / 10), seq![digit(n % 10)]);
        lemma_brace_count_single(digit(n % 10));
        assert(decimal(n) =~= decimal(n / 10) + seq![digit(n % 10)]);
    }
}

pub proof fn lemma_placeholder_one_brace(index: nat)
    ensures
        brace_count(placeholder(index)) == 1,
{
    lemma_decimal_has_no_brace(index);
    let open = seq!['{'];
    let close = seq!['}'];
    lemma_brace_count_concat(open + decimal(index), close);
    lemma_brace_count_concat(open, decimal(index));
    lemma_brace_count_single('{');
    lemma_brace_count_single('}');
}

pub proof fn lemma_pushed_braces(path: Seq<char>, segment: Seq<char>)
    ensures
        brace_count(pushed(path, segment)) == brace_count(path) + brace_count(segment),
{
    if path.len() > 0 && path.last() == '/' {
        lemma_brace_count_concat(path, segment);
    } else {
        let slash = seq!['/'];
        assert(path.push('/') =~= path + slash);
        lemma_brace_count_concat(path, slash);
        lemma_brace_count_concat(path.push('/'), segment);
        lemma_brace_count_single('/');
    }
}

/// When no name holds a brace, the pretty path holds as many opening braces
/// as the template: each placeholder turns into exactly one braced name.
pub proof fn lemma_pretty_keeps_braces(p: Seq<char>, names: Seq<Seq<char>>)
    requires
        forall|i: int| 0 <= i < names.len() ==> brace_count(#[trigger] names[i]) == 0,
    ensures
        brace_count(pretty_of(p, names)) == brace_count(p),
    decreases p.len(),
{
    if p.len() == 0 {
    } else {
        let first = seq![p[0]];
        lemma_brace_count_single(p[0]);
        assert(p =~= first + p.skip(1));
        lemma_brace_count_concat(first, p.skip(1));
        match placeholder_index(p, names.len(), 0) {
            Some(k) => {
                if k < names.len() && placeholder(k).len() <= p.len() {
                    let ph = placeholder(k);
                    let open = seq!['{'];
                    let close = seq!['}'];
                    let rest = p.skip(ph.len() as int);
                    lemma_pretty_keeps_braces(rest, names);
                    assert(p =~= p.take(ph.len() as int) + rest);
                    lemma_placeholder_index_prefix(p, names.len(), 0);
                    assert(p.take(ph.len() as int) =~= ph);
                    lemma_brace_count_concat(ph, rest);
                    lemma_placeholder_one_brace(k);
                    lemma_brace_count_concat(open + names[k as int] + close, pretty_of(rest, names));
                    lemma_brace_count_concat(open + names[k as int], close);
                    lemma_brace_count_concat(open, names[k as int]);
                    lemma_brace_count_single('{');
                    lemma_brace_count_single('}');
                } else {
                    lemma_pretty_keeps_braces(p.skip(1), names);
                    lemma_brace_count_concat(first, pretty_of(p.skip(1), names));
                }
            },
            None => {
                lemma_pretty_keeps_braces(p.skip(1), names);
                lemma_brace_count_concat(first, pretty_of(p.skip(1), names));
            },
        }
    }
}



/// Whether the opening braces of `p` are exactly the placeholders of the
/// indices `from`, `from + 1`, ..., `k - 1`, in that order: each brace
/// starts the next placeholder, and all of them occur.
pub open spec fn reads_placeholders(p: Seq<char>, from: nat, k: nat) -> bool
    decreases p.len(),
{
    if p.len() == 0 {
        from == k
    } else if p[0] == '{' {
        &&& from < k
        &&& placeholder(from).is_prefix_of(p)
        &&& reads_placeholders(p.skip(placeholder(from).len() as int), from + 1, k)
    } else {
        reads_placeholders(p.drop_first(), from, k)
    }
}

pub proof fn lemma_reads_bound(p: Seq<char>, from: nat, k: nat)
    requires
        reads_placeholders(p, from, k),
    ensures
        from <= k,
    decreases p.len(),
{
    if p.len() > 0 {
        if p[0] == '{' {
            lemma_reads_bound(p.skip(placeholder(from).len() as int), from + 1, k);
        } else {
            lemma_reads_bound(p.drop_first(), from, k);
        }
    }
}

pub proof fn lemma_reads_concat(p: Seq<char>, q: Seq<char>, from: nat, mid: nat, k: nat)
    requires
        reads_placeholders(p, from, mid),
        reads_placeholders(q, mid, k),
    ensures
        reads_placeholders(p + q, from, k),
    decreases p.len(),
{
    lemma_reads_bound(q, mid, k);
    if p.len() == 0 {
        assert(p + q =~= q);
    } else if p[0] == '{' {
        let n = placeholder(from).len() as int;
        lemma_reads_concat(p.skip(n), q, from + 1, mid, k);
        assert((p + q).skip(n) =~= p.skip(n) + q);
        assert(placeholder(from).is_prefix_of(p + q)) by {
            assert forall|i: int| 0 <= i < n implies #[trigger] (p + q)[i] == placeholder(from)[i] by {
                assert((p + q)[i] == p[i]);
            }
        }
        assert((p + q)[0] == '{');
    } else {
        lemma_reads_concat(p.drop_first(), q, from, mid, k);
        assert((p + q).drop_first() =~= p.drop_first() + q);
    }
}

pub proof fn lemma_reads_no_brace(s: Seq<char>, k: nat)
    requires
        brace_count(s) == 0,
    ensures
        reads_placeholders(s, k, k),
    decreases s.len(),
{
    if s.len() > 0 {
        lemma_reads_no_brace(s.drop_first(), k);
    }
}

pub proof fn lemma_reads_placeholder(k: nat)
    ensures
        reads_placeholders(placeholder(k), k, k + 1),
{
    let ph = placeholder(k);
    assert(ph.skip(ph.len() as int) =~= Seq::<char>::empty());
    assert(reads_placeholders(Seq::<char>::empty(), k + 1, k + 1));
    assert(ph.len() > 0);
    assert(ph[0] == '{');
    assert(ph.is_prefix_of(ph)) by {
        assert(ph.subrange(0, ph.len() as int) =~= ph);
    }
}

/// Appending a segment that reads the next placeholders keeps the reading.
pub proof fn lemma_reads_pushed(path: Seq<char>, segment: Seq<char>, mid: nat, k: nat)
    requires
        reads_placeholders(path, 0, mid),
        reads_placeholders(segment, mid, k),
    ensures
        reads_placeholders(pushed(path, segment), 0, k),
{
    if path.len() > 0 && path.last() == '/' {
        lemma_reads_concat(path, segment, 0, mid, k);
    } else {
        let slash = seq!['/'];
        lemma_brace_count_single('/');
        lemma_reads_no_brace(slash, mid);
        lemma_reads_concat(path, slash, 0, mid, mid);
        assert(path.push('/') =~= path + slash);
        lemma_reads_concat(path.push('/'), segment, 0, mid, k);
    }
}

/// A template that reads the placeholders `from .. k` holds `k - from` braces.
pub proof fn lemma_reads_braces(p: Seq<char>, from: nat, k: nat)
    requires
        reads_placeholders(p, from, k),
    ensures
        brace_count(p) + from == k,
    decreases p.len(),
{
    if p.len() > 0 {
        if p[0] == '{' {
            let ph = placeholder(from);
            let rest = p.skip(ph.len() as int);
            lemma_reads_braces(rest, from + 1, k);
            assert(p =~= ph + rest);
            lemma_brace_count_concat(ph, rest);
            lemma_placeholder_one_brace(from);
        } else {
            lemma_reads_braces(p.drop_first(), from, k);
        }
    }
}

/// The one-character text of the digit `d`.
fn digit_text(d: usize) -> (r: &'static str)
    requires
        d < 10,
    ensures
        r@ == seq![digit(d as nat)],
{
    proof {
        reveal_strlit("0");
        reveal_strlit("1");
        reveal_strlit("2");
        reveal_strlit("3");
        reveal_strlit("4");
        reveal_strlit("5");
        reveal_strlit("6");
        reveal_strlit("7");
        reveal_strlit("8");
        reveal_strlit("9");
    }
    let r = if d == 0 {
        "0"
    } else if d == 1 {
        "1"
    } else if d == 2 {
        "2"
    } else if d == 3 {
        "3"
    } else if d == 4 {
        "4"
    } else if d == 5 {
        "5"
    } else if d == 6 {
        "6"
    } else if d == 7 {
        "7"
    } else if d == 8 {
        "8"
    } else {
        "9"
    };
    assert(r@ =~= seq![digit(d as nat)]);
    r
}

/// The decimal numeral of `n`.
pub fn decimal_text(n: usize) -> (r: String)
    ensures
        r@ == decimal(n as nat),
    decreases n,
{
    if n < 10 {
        String::from_str(digit_text(n))
    } else {
        let head = decimal_text(n / 10);
        let r = head.concat(digit_text(n % 10));
        assert(r@ =~= decimal(n as nat));
        r
    }
}

/// The placeholder text for the parameter at `index`.
pub fn placeholder_text(index: usize) -> (r: String)
    ensures
        r@ == placeholder(index as nat),
{
    proof {
        reveal_strlit("{");
        reveal_strlit("}");
    }
    let mut r = String::from_str("{");
    let digits = decimal_text(index);
    r.append(digits.as_str());
    r.append("}");
    assert(r@ =~= placeholder(index as nat));
    r
}

/// Whether `pattern` occurs in `s` starting at character `at`.
pub fn occurs_at(s: &str, at: usize, pattern: &str) -> (r: bool)
    requires
        at <= s@.len(),
    ensures
        r == pattern@.is_prefix_of(s@.skip(at as int)),
{
    let n = s.unicode_len();
    let m = pattern.unicode_len();
    if m > n - at {
        return false;
    }
    let mut j: usize = 0;
    while j < m
        invariant
            n == s@.len(),
            m == pattern@.len(),
            at + m <= n,
            j <= m,
            forall|k: int| 0 <= k < j ==> pattern@[k] == s@[at + k],
        decreases m - j,
    {
        if pattern.get_char(j) != s.get_char(at + j) {
            return false;
        }
        j = j + 1;
    }
    true
}

} // verus!
