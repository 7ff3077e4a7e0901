//! Character-sequence utilities: a lexicographic order on strings, substring
//! search, splitting, trimming, and decimal rendering of lengths.  All exec
//! functions carry exact contracts over `Seq<char>`.

use vstd::prelude::*;

verus! {

use vstd::relations::total_ordering;
use vstd::string::StrSliceExecFns;
use vstd::string::StringExecFns;

/// Lexicographic "less than or equal" on character sequences, ordering
/// characters by their Unicode scalar values.
pub open spec fn str_le(a: Seq<char>, b: Seq<char>) -> bool
    decreases a.len(),
{
    if a.len() == 0 {
        true
    } else if b.len() == 0 {
        false
    } else if a[0] != b[0] {
        (a[0] as u32) < (b[0] as u32)
    } else {
        str_le(a.drop_first(), b.drop_first())
    }
}

/// The order `str_le` as a relation value, for use with `sort_by`.
pub open spec fn str_leq() -> spec_fn(Seq<char>, Seq<char>) -> bool {
    |a: Seq<char>, b: Seq<char>| str_le(a, b)
}

/// Two sequences with the same head and the same tail are equal.
proof fn lemma_eq_from_head_tail(a: Seq<char>, b: Seq<char>)
    requires
        a.len() > 0,
        b.len() > 0,
        a[0] == b[0],
        a.drop_first() == b.drop_first(),
    ensures
        a == b,
{
    assert(a.drop_first().len() == a.len() - 1);
    assert(b.drop_first().len() == b.len() - 1);
    assert forall|i: int| 0 <= i < a.len() implies a[i] == b[i] by {
        if i > 0 {
            assert(a[i] == a.drop_first()[i - 1]);
            assert(b[i] == b.drop_first()[i - 1]);
        }
    }
    assert(a =~= b);
}

pub proof fn lemma_str_le_refl(a: Seq<char>)
    ensures
        str_le(a, a),
    decreases a.len(),
{
    if a.len() > 0 {
        lemma_str_le_refl(a.drop_first());
    }
}

pub proof fn lemma_str_le_connected(a: Seq<char>, b: Seq<char>)
    ensures
        str_le(a, b) || str_le(b, a),
    decreases a.len(),
{
    if a.len() > 0 && b.len() > 0 {
        if a[0] == b[0] {
            lemma_str_le_connected(a.drop_first(), b.drop_first());
        } else {
            assert((a[0] as u32) != (b[0] as u32)) by {
                if (a[0] as u32) == (b[0] as u32) {
                    vstd::utf8::char_u32_cast(a[0], a[0] as u32);
                    vstd::utf8::char_u32_cast(b[0], b[0] as u32);
                }
            }
        }
    }
}

pub proof fn lemma_str_le_antisym(a: Seq<char>, b: Seq<char>)
    requires
        str_le(a, b),
        str_le(b, a),
    ensures
        a == b,
    decreases a.len(),
{
    if a.len() == 0 {
        assert(b.len() == 0);
        assert(a =~= b);
    } else {
        assert(b.len() > 0);
        assert(a[0] == b[0]) by {
            if a[0] != b[0] {
                assert((a[0] as u32) < (b[0] as u32));
                assert((b[0] as u32) < (a[0] as u32));
            }
        }
        lemma_str_le_antisym(a.drop_first(), b.drop_first());
        lemma_eq_from_head_tail(a, b);
    }
}

pub proof fn lemma_str_le_trans(a: Seq<char>, b: Seq<char>, c: Seq<char>)
    requires
        str_le(a, b),
        str_le(b, c),
    ensures
        str_le(a, c),
    decreases a.len(),
{
    if a.len() == 0 {
    } else {
        assert(b.len() > 0);
        assert(c.len() > 0);
        if a[0] == b[0] && b[0] == c[0] {
            lemma_str_le_trans(a.drop_first(), b.drop_first(), c.drop_first());
        }
    }
}

/// `str_le` is a total ordering, as `Seq::sort_by` requires.
pub proof fn lemma_str_le_total_ordering()
    ensures
        total_ordering(str_leq()),
{
    let r = str_leq();
    assert forall|x: Seq<char>| #[trigger] r(x, x) by {
        lemma_str_le_refl(x);
    }
    assert forall|x: Seq<char>, y: Seq<char>| #[trigger] r(x, y) && #[trigger] r(y, x)
        implies x == y by {
        lemma_str_le_antisym(x, y);
    }
    assert forall|x: Seq<char>, y: Seq<char>, z: Seq<char>|
        #[trigger] r(x, y) && #[trigger] r(y, z) implies r(x, z) by {
        lemma_str_le_trans(x, y, z);
    }
    assert forall|x: Seq<char>, y: Seq<char>| #[trigger] r(x, y) || #[trigger] r(y, x) by {
        lemma_str_le_connected(x, y);
    }
}

/// Character-by-character equality of two string slices.
pub fn str_eq(a: &str, b: &str) -> (r: bool)
    ensures
        r == (a@ == b@),
{
    let la: usize = a.unicode_len();
    let lb: usize = b.unicode_len();
    if la != lb {
        return false;
    }
    let mut i: usize = 0;
    while i < la
        invariant
            i <= la,
            la == a@.len(),
            la == b@.len(),
            forall|j: int| 0 <= j < i ==> a@[j] == b@[j],
        decreases la - i,
    {
        if a.get_char(i) != b.get_char(i) {
            return false;
        }
        i = i + 1;
    }
    proof {
        assert(a@ =~= b@);
    }
    true
}

/// Decides `str_le` on two string slices.
pub fn str_le_exec(a: &str, b: &str) -> (r: bool)
    ensures
        r == str_le(a@, b@),
{
    let la: usize = a.unicode_len();
    let lb: usize = b.unicode_len();
    let mut i: usize = 0;
    proof {
        assert(a@.skip(0) =~= a@);
        assert(b@.skip(0) =~= b@);
    }
    loop
        invariant
            i <= la,
            i <= lb,
            la == a@.len(),
            lb == b@.len(),
            str_le(a@, b@) == str_le(a@.skip(i as int), b@.skip(i as int)),
        decreases la - i,
    {
        if i >= la {
            proof {
                assert(a@.skip(i as int) =~= Seq::<char>::empty());
            }
            return true;
        }
        if i >= lb {
            proof {
                assert(b@.skip(i as int) =~= Seq::<char>::empty());
                assert(a@.skip(i as int).len() > 0);
            }
            return false;
        }
        let ca = a.get_char(i);
        let cb = b.get_char(i);
        proof {
            assert(a@.skip(i as int)[0] == a@[i as int]);
            assert(b@.skip(i as int)[0] == b@[i as int]);
        }
        if ca != cb {
            return (ca as u32) < (cb as u32);
        }
        proof {
            assert(a@.skip(i as int).drop_first() =~= a@.skip(i as int + 1));
            assert(b@.skip(i as int).drop_first() =~= b@.skip(i as int + 1));
        }
        i = i + 1;
    }
}

/// Whether `pre` is a prefix of `a`, decided on slices.
pub fn str_starts_with(a: &str, pre: &str) -> (r: bool)
    ensures
        r == pre@.is_prefix_of(a@),
{
    let la: usize = a.unicode_len();
    let lp: usize = pre.unicode_len();
    if lp > la {
        return false;
    }
    let mut i: usize = 0;
    while i < lp
        invariant
            i <= lp,
            lp <= la,
            la == a@.len(),
            lp == pre@.len(),
            forall|j: int| 0 <= j < i ==> a@[j] == pre@[j],
        decreases lp - i,
    {
        if a.get_char(i) != pre.get_char(i) {
            proof {
                assert(!pre@.is_prefix_of(a@));
            }
            return false;
        }
        i = i + 1;
    }
    proof {
        assert(pre@ =~= a@.subrange(0, lp as int));
    }
    true
}

/// Index of the first occurrence of `c` in `s`, if any.
pub open spec fn first_index_of(s: Seq<char>, c: char) -> Option<int>
    decreases s.len(),
{
    if s.len() == 0 {
        None
    } else if s[0] == c {
        Some(0int)
    } else {
        match first_index_of(s.drop_first(), c) {
            None => None,
            Some(i) => Some(i + 1),
        }
    }
}

pub proof fn lemma_first_index_of(s: Seq<char>, c: char)
    ensures
        match first_index_of(s, c) {
            Some(i) => 0 <= i < s.len() && s[i] == c && forall|j: int| 0 <= j < i ==> s[j] != c,
            None => forall|j: int| 0 <= j < s.len() ==> s[j] != c,
        },
    decreases s.len(),
{
    if s.len() > 0 && s[0] != c {
        let d = s.drop_first();
        lemma_first_index_of(d, c);
        assert(forall|j: int| 0 <= j < d.len() ==> #[trigger] d[j] == s[j + 1]);
        match first_index_of(d, c) {
            Some(i) => {
                assert forall|j: int| 0 <= j < i + 1 implies s[j] != c by {
                    if j > 0 {
                        assert(d[j - 1] == s[j]);
                    }
                }
            },
            None => {
                assert forall|j: int| 0 <= j < s.len() implies s[j] != c by {
                    if j > 0 {
                        assert(d[j - 1] == s[j]);
                    }
                }
            },
        }
    }
}

/// Finds the first occurrence of `c` in `s`.
pub fn str_find_char(s: &str, c: char) -> (r: Option<usize>)
    ensures
        match r {
            Some(i) => first_index_of(s@, c) == Some(i as int),
            None => first_index_of(s@, c) is None,
        },
{
    proof {
        lemma_first_index_of(s@, c);
    }
    let l: usize = s.unicode_len();
    let mut i: usize = 0;
    while i < l
        invariant
            i <= l,
            l == s@.len(),
            forall|j: int| 0 <= j < i ==> s@[j] != c,
            match first_index_of(s@, c) {
                Some(k) => 0 <= k < s@.len() && s@[k] == c && forall|j: int| 0 <= j < k ==> s@[j] != c,
                None => forall|j: int| 0 <= j < s@.len() ==> s@[j] != c,
            },
        decreases l - i,
    {
        if s.get_char(i) == c {
            return Some(i);
        }
        i = i + 1;
    }
    None
}

/// Index of the last occurrence of `c` in `s`, if any.
pub open spec fn last_index_of(s: Seq<char>, c: char) -> Option<int>
    decreases s.len(),
{
    if s.len() == 0 {
        None
    } else if s[s.len() - 1] == c {
        Some(s.len() - 1)
    } else {
        last_index_of(s.drop_last(), c)
    }
}

pub proof fn lemma_last_index_of(s: Seq<char>, c: char)
    ensures
        match last_index_of(s, c) {
            Some(i) => 0 <= i < s.len() && s[i] == c && forall|j: int| i < j < s.len() ==> s[j] != c,
            None => forall|j: int| 0 <= j < s.len() ==> s[j] != c,
        },
    decreases s.len(),
{
    if s.len() > 0 && s[s.len() - 1] != c {
        let d = s.drop_last();
        lemma_last_index_of(d, c);
        match last_index_of(d, c) {
            Some(i) => {
                assert forall|j: int| i < j < s.len() implies s[j] != c by {
                    if j < d.len() {
                        assert(d[j] == s[j]);
                    }
                }
            },
            None => {
                assert forall|j: int| 0 <= j < s.len() implies s[j] != c by {
                    if j < d.len() {
                        assert(d[j] == s[j]);
                    }
                }
            },
        }
    }
}

/// Finds the last occurrence of `c` in `s`.
pub fn str_rfind_char(s: &str, c: char) -> (r: Option<usize>)
    ensures
        match r {
            Some(i) => last_index_of(s@, c) == Some(i as int),
            None => last_index_of(s@, c) is None,
        },
{
    proof {
        lemma_last_index_of(s@, c);
    }
    let l: usize = s.unicode_len();
    let mut i: usize = l;
    while i > 0
        invariant
            i <= l,
            l == s@.len(),
            forall|j: int| i <= j < l ==> s@[j] != c,
            match last_index_of(s@, c) {
                Some(k) => 0 <= k < s@.len() && s@[k] == c && forall|j: int| k < j < s@.len() ==> s@[j] != c,
                None => forall|j: int| 0 <= j < s@.len() ==> s@[j] != c,
            },
        decreases i,
    {
        i = i - 1;
        if s.get_char(i) == c {
            return Some(i);
        }
    }
    None
}

/// Copies the character range `[from, to)` of `s` into an owned string.
pub fn substr(s: &str, from: usize, to: usize) -> (r: String)
    requires
        from <= to <= s@.len(),
    ensures
        r@ == s@.subrange(from as int, to as int),
{
    String::from_str(s.substring_char(from, to))
}

/// Splits `s` at every occurrence of `c`; `n` separators yield `n + 1`
/// pieces, so the result is never empty and empty pieces are kept.
pub open spec fn split_on(s: Seq<char>, c: char) -> Seq<Seq<char>>
    decreases s.len(),
{
    if s.len() == 0 {
        seq![Seq::<char>::empty()]
    } else if s[0] == c {
        seq![Seq::<char>::empty()] + split_on(s.drop_first(), c)
    } else {
        let rest = split_on(s.drop_first(), c);
        seq![seq![s[0]] + rest[0]] + rest.drop_first()
    }
}

pub proof fn lemma_split_on_len(s: Seq<char>, c: char)
    ensures
        split_on(s, c).len() >= 1,
    decreases s.len(),
{
    if s.len() > 0 {
        lemma_split_on_len(s.drop_first(), c);
    }
}

/// Unrolls `split_on` one whole piece at a time: the first piece runs up to
/// the first separator, and the remaining pieces split the remainder.
pub proof fn lemma_split_on_step(s: Seq<char>, c: char)
    ensures
        match first_index_of(s, c) {
            None => split_on(s, c) == seq![s],
            Some(i) => split_on(s, c) == seq![s.take(i)] + split_on(s.skip(i + 1), c),
        },
    decreases s.len(),
{
    lemma_first_index_of(s, c);
    if s.len() == 0 {
        assert(split_on(s, c) =~~= seq![s]);
    } else if s[0] == c {
        assert(s.take(0) =~= Seq::<char>::empty());
        assert(s.skip(1) =~= s.drop_first());
        assert(split_on(s, c) =~~= seq![s.take(0)] + split_on(s.skip(1), c));
    } else {
        let d = s.drop_first();
        lemma_split_on_step(d, c);
        lemma_split_on_len(d, c);
        match first_index_of(d, c) {
            None => {
                assert(first_index_of(s, c) is None);
                assert(split_on(s, c) == seq![seq![s[0]] + split_on(d, c)[0]] + split_on(
                    d,
                    c,
                ).drop_first());
                assert(split_on(d, c) == seq![d]);
                assert(split_on(d, c)[0] == d);
                assert(seq![s[0]] + d =~= s);
                assert(split_on(d, c).drop_first() =~= Seq::<Seq<char>>::empty());
                assert(split_on(s, c) =~~= seq![s]);
            },
            Some(j) => {
                assert(first_index_of(s, c) == Some(j + 1));
                assert(split_on(s, c) == seq![seq![s[0]] + split_on(d, c)[0]] + split_on(
                    d,
                    c,
                ).drop_first());
                let rest = split_on(d, c);
                assert(rest == seq![d.take(j)] + split_on(d.skip(j + 1), c));
                assert(rest[0] == d.take(j));
                assert(seq![s[0]] + d.take(j) =~= s.take(j + 1));
                assert(rest.drop_first() =~~= split_on(d.skip(j + 1), c));
                assert(d.skip(j + 1) =~= s.skip(j + 2));
                assert(split_on(s, c) =~~= seq![s.take(j + 1)] + split_on(s.skip(j + 2), c));
            },
        }
    }
}

/// Splits a string slice at every occurrence of `c`.
pub fn str_split(s: &str, c: char) -> (r: Vec<String>)
    ensures
        r@.map_values(|t: String| t@) == split_on(s@, c),
{
    let mut pieces: Vec<String> = Vec::new();
    let mut rest: String = String::from_str(s);
    proof {
        assert(pieces@.map_values(|t: String| t@) =~= Seq::<Seq<char>>::empty());
    }
    loop
        invariant
            pieces@.map_values(|t: String| t@) + split_on(rest@, c) =~~= split_on(s@, c),
        decreases rest@.len(),
    {
        proof {
            lemma_split_on_step(rest@, c);
            lemma_first_index_of(rest@, c);
        }
        match str_find_char(rest.as_str(), c) {
            None => {
                pieces.push(rest);
                proof {
                    assert(pieces@.map_values(|t: String| t@) =~~= split_on(s@, c));
                }
                return pieces;
            },
            Some(i) => {
                let l: usize = rest.as_str().unicode_len();
                let piece = substr(rest.as_str(), 0, i);
                let tail = substr(rest.as_str(), i + 1, l);
                proof {
                    assert(piece@ =~= rest@.take(i as int));
                    assert(tail@ =~= rest@.skip(i as int + 1));
                    assert(pieces@.push(piece).map_values(|t: String| t@) =~= pieces@.map_values(
                        |t: String| t@,
                    ).push(piece@));
                }
                pieces.push(piece);
                rest = tail;
            },
        }
    }
}

/// The whitespace characters that `trim_spec` removes.
pub open spec fn is_space(ch: char) -> bool {
    ch == ' ' || ch == '\t' || ch == '\r' || ch == '\n'
}

/// `s` with leading and trailing whitespace removed.
pub open spec fn trim_spec(s: Seq<char>) -> Seq<char>
    decreases s.len(),
{
    if s.len() == 0 {
        s
    } else if is_space(s[0]) {
        trim_spec(s.drop_first())
    } else if is_space(s[s.len() - 1]) {
        trim_spec(s.drop_last())
    } else {
        s
    }
}

fn is_space_exec(ch: char) -> (r: bool)
    ensures
        r == is_space(ch),
{
    ch == ' ' || ch == '\t' || ch == '\r' || ch == '\n'
}

/// Removes leading and trailing whitespace.
pub fn str_trim(s: &str) -> (r: String)
    ensures
        r@ == trim_spec(s@),
    decreases s@.len(),
{
    let l: usize = s.unicode_len();
    if l == 0 {
        String::from_str(s)
    } else if is_space_exec(s.get_char(0)) {
        let tail = substr(s, 1, l);
        proof {
            assert(tail@ =~= s@.drop_first());
        }
        str_trim(tail.as_str())
    } else if is_space_exec(s.get_char(l - 1)) {
        let head = substr(s, 0, l - 1);
        proof {
            assert(head@ =~= s@.drop_last());
        }
        str_trim(head.as_str())
    } else {
        String::from_str(s)
    }
}

/// The character for a single decimal digit.
pub open spec fn digit_char(d: nat) -> char {
    if d == 0 {
        '0'
    } else if d == 1 {
        '1'
    } else if d == 2 {
        '2'
    } else if d == 3 {
        '3'
    } else if d == 4 {
        '4'
    } else if d == 5 {
        '5'
    } else if d == 6 {
        '6'
    } else if d == 7 {
        '7'
    } else if d == 8 {
        '8'
    } else {
        '9'
    }
}

/// Decimal rendering of a natural number, most significant digit first.
pub open spec fn dec_of(n: nat) -> Seq<char>
    decreases n,
{
    if n < 10 {
        seq![digit_char(n)]
    } else {
        dec_of(n / 10).push(digit_char(n % 10))
    }
}

fn digit_str(d: u64) -> (r: String)
    requires
        d < 10,
    ensures
        r@ == seq![digit_char(d as nat)],
{
    let s: &str = if d == 0 {
        "0"
    } else if d == 1 {
        "1"
    } else if d == 2 {
        "2"
    } else if d == 3 {
        "3"
    } else if d == 4 {
        "4"
    } else if d == 5 {
        "5"
    } else if d == 6 {
        "6"
    } else if d == 7 {
        "7"
    } else if d == 8 {
        "8"
    } else {
        "9"
    };
    proof {
        reveal_strlit("0");
        reveal_strlit("1");
        reveal_strlit("2");
        reveal_strlit("3");
        reveal_strlit("4");
        reveal_strlit("5");
        reveal_strlit("6");
        reveal_strlit("7");
        reveal_strlit("8");
        reveal_strlit("9");
        assert(s@ =~= seq![digit_char(d as nat)]);
    }
    String::from_str(s)
}

/// Renders `n` in decimal.
pub fn dec_str(n: u64) -> (r: String)
    ensures
        r@ == dec_of(n as nat),
    decreases n,
{
    if n < 10 {
        digit_str(n)
    } else {
        let mut r = dec_str(n / 10);
        let d = digit_str(n % 10);
        r.append(d.as_str());
        proof {
            assert(r@ =~= dec_of(n as nat));
        }
        r
    }
}

} // verus!
