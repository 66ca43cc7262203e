//! Text as sequences of characters: prefixes, path components, code point
//! order and decimal numbers.

use vstd::prelude::*;
use vstd::string::*;

verus! {

/// What follows `prefix` in `s`, where `s` begins with `prefix`.
pub open spec fn stripped(s: Seq<char>, prefix: Seq<char>) -> Option<Seq<char>> {
    if prefix.is_prefix_of(s) {
        Some(s.skip(prefix.len() as int))
    } else {
        None
    }
}

/// What follows the last `/` of `path`; all of `path` where it has none.
pub open spec fn last_component(path: Seq<char>) -> Seq<char> {
    match path.index_of_last('/') {
        Some(slash) => path.skip(slash + 1),
        None => path,
    }
}

/// Whether `a` and `b` agree before `k`, and there `a` ends or holds the
/// smaller code point.
pub open spec fn smaller_at(a: Seq<char>, b: Seq<char>, k: int) -> bool {
    &&& 0 <= k <= a.len()
    &&& k < b.len()
    &&& a.take(k) == b.take(k)
    &&& k == a.len() || (a[k] as int) < (b[k] as int)
}

/// Whether `a` comes strictly before `b` in the lexicographic order of code
/// points, which is the order of `str`.
pub open spec fn precedes(a: Seq<char>, b: Seq<char>) -> bool {
    exists|k: int| #[trigger] smaller_at(a, b, k)
}

/// The character of the decimal digit `d`.
pub open spec fn digit_char(d: nat) -> char {
    ('0' as nat + d) as char
}

/// The decimal digits of `n`, without leading zeros.
pub open spec fn decimal(n: nat) -> Seq<char>
    decreases n,
{
    if n < 10 {
        seq![digit_char(n)]
    } else {
        decimal(n / 10).push(digit_char(n % 10))
    }
}

/// The decimal digits of `n`, after a `-` where it is negative.
pub open spec fn signed_decimal(n: int) -> Seq<char> {
    if n < 0 {
        seq!['-'] + decimal((-n) as nat)
    } else {
        decimal(n as nat)
    }
}

/// Whether `s` begins with `prefix`.
pub fn starts_with(s: &str, prefix: &str) -> (found: bool)
    ensures
        found == prefix@.is_prefix_of(s@),
{
    let mut wanted = prefix.chars();
    let mut given = s.chars();
    let ghost mut k: int = 0;
    loop
        invariant
            0 <= k <= prefix@.len(),
            k <= s@.len(),
            vstd::std_specs::iter::IteratorSpec::remaining(&wanted) == prefix@.skip(k),
            vstd::std_specs::iter::IteratorSpec::remaining(&given) == s@.skip(k),
            prefix@.take(k) == s@.take(k),
        decreases prefix@.len() - k,
    {
        match wanted.next() {
            None => {
                assert(prefix@.take(k) == prefix@);
                return true;
            },
            Some(w) => match given.next() {
                None => {
                    return false;
                },
                Some(g) => {
                    if w != g {
                        return false;
                    }
                    proof {
                        k = k + 1;
                    }
                },
            },
        }
    }
}

/// Whether `a` and `b` hold the same characters.
pub fn same(a: &str, b: &str) -> (equal: bool)
    ensures
        equal == (a@ == b@),
{
    if a.unicode_len() != b.unicode_len() {
        return false;
    }
    let found = starts_with(a, b);
    assert(found ==> a@ == b@);
    found
}

/// Whether `c` occurs in `s`.
pub fn contains_char(s: &str, c: char) -> (found: bool)
    ensures
        found == s@.contains(c),
{
    let mut rest = s.chars();
    let ghost mut k: int = 0;
    loop
        invariant
            0 <= k <= s@.len(),
            vstd::std_specs::iter::IteratorSpec::remaining(&rest) == s@.skip(k),
            forall|i: int| 0 <= i < k ==> s@[i] != c,
        decreases s@.len() - k,
    {
        match rest.next() {
            None => {
                return false;
            },
            Some(d) => {
                if d == c {
                    assert(s@[k] == c);
                    return true;
                }
                proof {
                    k = k + 1;
                }
            },
        }
    }
}

/// What follows `prefix` in `s`; `None` where `s` does not begin with it.
pub fn strip_prefix(s: &str, prefix: &str) -> (rest: Option<String>)
    ensures
        match rest {
            Some(rest) => stripped(s@, prefix@) == Some(rest@),
            None => stripped(s@, prefix@) is None,
        },
{
    if starts_with(s, prefix) {
        let from: usize = prefix.unicode_len();
        let to: usize = s.unicode_len();
        Some(s.substring_char(from, to).to_owned())
    } else {
        None
    }
}

/// What follows the last `/` of `path`; all of `path` where it has none.
pub fn file_name(path: &str) -> (name: String)
    ensures
        name@ == last_component(path@),
{
    let to: usize = path.unicode_len();
    let mut from: usize = 0;
    let mut next: usize = 0;
    let mut rest = path.chars();
    loop
        invariant
            to == path@.len(),
            from <= next <= to,
            vstd::std_specs::iter::IteratorSpec::remaining(&rest) == path@.skip(next as int),
            from == 0 || path@[from - 1] == '/',
            forall|i: int| from <= i < next ==> path@[i] != '/',
        ensures
            next == to,
        decreases to - next,
    {
        match rest.next() {
            None => {
                break;
            },
            Some(c) => {
                next = next + 1;
                if c == '/' {
                    from = next;
                }
            },
        }
    }
    proof {
        path@.index_of_last_ensures('/');
        if from > 0 {
            assert(path@.contains('/'));
            assert(path@.index_of_last('/') == Some(from - 1));
        }
    }
    path.substring_char(from, to).to_owned()
}

/// Whether `a` comes strictly before `b` in the order of `str`.
pub fn comes_before(a: &str, b: &str) -> (before: bool)
    ensures
        before == precedes(a@, b@),
{
    let mut left = a.chars();
    let mut right = b.chars();
    let ghost mut k: int = 0;
    loop
        invariant
            0 <= k <= a@.len(),
            k <= b@.len(),
            vstd::std_specs::iter::IteratorSpec::remaining(&left) == a@.skip(k),
            vstd::std_specs::iter::IteratorSpec::remaining(&right) == b@.skip(k),
            a@.take(k) == b@.take(k),
        decreases a@.len() - k,
    {
        let l = left.next();
        let r = right.next();
        match r {
            None => {
                proof {
                    lemma_not_smaller(a@, b@, k);
                }
                return false;
            },
            Some(d) => match l {
                None => {
                    assert(smaller_at(a@, b@, k));
                    return true;
                },
                Some(c) => {
                    if c != d {
                        let before = c < d;
                        proof {
                            if before {
                                assert(smaller_at(a@, b@, k));
                            } else {
                                lemma_not_smaller(a@, b@, k);
                            }
                        }
                        return before;
                    }
                    proof {
                        assert(a@.take(k + 1) == a@.take(k).push(c));
                        assert(b@.take(k + 1) == b@.take(k).push(c));
                        k = k + 1;
                    }
                },
            },
        }
    }
}

/// A first difference at `k` that does not favour `a` rules out every other.
proof fn lemma_not_smaller(a: Seq<char>, b: Seq<char>, k: int)
    requires
        0 <= k <= a.len(),
        0 <= k <= b.len(),
        a.take(k) == b.take(k),
        k == b.len() || (k < a.len() && (a[k] as int) > (b[k] as int)),
    ensures
        !precedes(a, b),
{
    assert forall|j: int| !#[trigger] smaller_at(a, b, j) by {
        if smaller_at(a, b, j) {
            if j < k {
                assert(a.take(k)[j] == a[j]);
                assert(b.take(k)[j] == b[j]);
            } else {
                assert(k < j);
                assert(a.take(j)[k] == a[k]);
                assert(b.take(j)[k] == b[k]);
            }
        }
    }
}

/// No text comes before itself.
pub proof fn lemma_precedes_irreflexive(a: Seq<char>)
    ensures
        !precedes(a, a),
{
}

/// The order of texts is transitive.
pub proof fn lemma_precedes_transitive(a: Seq<char>, b: Seq<char>, c: Seq<char>)
    requires
        precedes(a, b),
        precedes(b, c),
    ensures
        precedes(a, c),
{
    let i = choose|i: int| #[trigger] smaller_at(a, b, i);
    let j = choose|j: int| #[trigger] smaller_at(b, c, j);
    let k = if i <= j { i } else { j };
    assert(a.take(k) == c.take(k)) by {
        assert(a.take(k) == b.take(i).take(k));
        assert(c.take(k) == b.take(j).take(k));
    }
    if i < j {
        assert(b.take(j)[i] == b[i]);
        assert(c.take(j)[i] == c[i]);
    } else if j < i {
        assert(b.take(i)[j] == b[j]);
        assert(a.take(i)[j] == a[j]);
    }
    assert(smaller_at(a, c, k));
}

/// Of two different texts one comes before the other.
pub proof fn lemma_precedes_total(a: Seq<char>, b: Seq<char>)
    ensures
        precedes(a, b) || a == b || precedes(b, a),
{
    assert(a.take(0) == b.take(0));
    lemma_first_difference(a, b, 0);
}

proof fn lemma_first_difference(a: Seq<char>, b: Seq<char>, k: int)
    requires
        0 <= k <= a.len(),
        k <= b.len(),
        a.take(k) == b.take(k),
    ensures
        precedes(a, b) || a == b || precedes(b, a),
    decreases a.len() - k,
{
    if k == a.len() {
        if k == b.len() {
            assert(a.take(k) == a);
            assert(b.take(k) == b);
        } else {
            assert(smaller_at(a, b, k));
        }
    } else if k == b.len() {
        assert(smaller_at(b, a, k));
    } else if a[k] == b[k] {
        assert(a.take(k + 1) == a.take(k).push(a[k]));
        assert(b.take(k + 1) == b.take(k).push(b[k]));
        lemma_first_difference(a, b, k + 1);
    } else if (a[k] as int) < (b[k] as int) {
        assert(smaller_at(a, b, k));
    } else {
        assert(smaller_at(b, a, k));
    }
}

/// The last component of a path is what follows a `/` that no other follows.
pub proof fn lemma_last_component(directory: Seq<char>, name: Seq<char>)
    requires
        !name.contains('/'),
    ensures
        last_component(directory + seq!['/'] + name) == name,
{
    let path = directory + seq!['/'] + name;
    path.index_of_last_ensures('/');
    assert(path[directory.len() as int] == '/');
    let slash = path.index_of_last('/').unwrap();
    if slash > directory.len() {
        assert(name[slash - directory.len() - 1] == '/');
    }
    assert(slash == directory.len());
    assert(path.skip(slash + 1) == name);
}

/// A path without a `/` is its own last component.
pub proof fn law_last_component_of_one_name(name: Seq<char>)
    requires
        !name.contains('/'),
    ensures
        last_component(name) == name,
{
    name.index_of_last_ensures('/');
}

/// What is stripped off and what is left put together give the text, and a
/// text that begins with the prefix has it stripped off.
pub proof fn law_stripped_puts_together(s: Seq<char>, prefix: Seq<char>, rest: Seq<char>)
    ensures
        stripped(s, prefix) == Some(rest) <==> s == prefix + rest,
        stripped(s, prefix) is Some <==> prefix.is_prefix_of(s),
{
    if s == prefix + rest {
        assert(s.skip(prefix.len() as int) == rest);
    }
    if prefix.is_prefix_of(s) {
        assert(s == prefix + s.skip(prefix.len() as int));
    }
}

/// Where two texts first differ, the smaller code point decides which comes
/// first.
pub proof fn law_first_difference_decides(
    common: Seq<char>,
    c: char,
    d: char,
    rest1: Seq<char>,
    rest2: Seq<char>,
)
    requires
        c != d,
    ensures
        precedes(common.push(c) + rest1, common.push(d) + rest2) <==> (c as int) < (d as int),
{
    let a = common.push(c) + rest1;
    let b = common.push(d) + rest2;
    let k = common.len() as int;
    assert(a.take(k) == common);
    assert(b.take(k) == common);
    if (c as int) < (d as int) {
        assert(smaller_at(a, b, k));
    } else {
        lemma_not_smaller(a, b, k);
    }
}

/// A text comes before every longer one that begins with it, and none of
/// those before it.
pub proof fn law_shorter_comes_first(text: Seq<char>, more: Seq<char>)
    requires
        more.len() > 0,
    ensures
        precedes(text, text + more),
        !precedes(text + more, text),
{
    let k = text.len() as int;
    assert(text.take(k) == text);
    assert((text + more).take(k) == text);
    assert(smaller_at(text, text + more, k));
    lemma_not_smaller(text + more, text, k);
}

/// The last digit of a number is its remainder by ten, and the digits before
/// it are those of a tenth of it, of which there are none below ten.
pub proof fn law_decimal_digits(n: nat)
    ensures
        decimal(n).len() >= 1,
        decimal(n).last() as int == '0' as int + n % 10,
        n < 10 ==> decimal(n).len() == 1,
        n >= 10 ==> decimal(n).drop_last() == decimal(n / 10),
{
    if n >= 10 {
        assert(decimal(n).drop_last() == decimal(n / 10));
    }
}

/// A negative number is a `-` and the digits of its opposite; any other is
/// its digits alone.
pub proof fn law_signed_decimal_sign(n: nat)
    ensures
        signed_decimal(n as int) == decimal(n),
        n > 0 ==> signed_decimal(-(n as int)) == seq!['-'] + decimal(n),
{
}

/// The last component of a path holds no `/`.
pub proof fn lemma_last_component_is_one_name(path: Seq<char>)
    ensures
        !last_component(path).contains('/'),
{
    path.index_of_last_ensures('/');
    if path.index_of_last('/') is Some {
        let slash = path.index_of_last('/').unwrap();
        let name = path.skip(slash + 1);
        if name.contains('/') {
            let j = choose|j: int| 0 <= j < name.len() && name[j] == '/';
            assert(path[slash + 1 + j] == '/');
        }
    }
}

fn digit(d: u64) -> (text: &'static str)
    requires
        d < 10,
    ensures
        text@ == seq![digit_char(d as nat)],
{
    proof {
        reveal_strlit("0");
        reveal_strlit("1");
        reveal_strlit("2");
        reveal_strlit("3");
        reveal_strlit("4");
        reveal_strlit("5");
        reveal_strlit("6");
        reveal_strlit("7");
        reveal_strlit("8");
        reveal_strlit("9");
    }
    if d == 0 {
        "0"
    } else if d == 1 {
        "1"
    } else if d == 2 {
        "2"
    } else if d == 3 {
        "3"
    } else if d == 4 {
        "4"
    } else if d == 5 {
        "5"
    } else if d == 6 {
        "6"
    } else if d == 7 {
        "7"
    } else if d == 8 {
        "8"
    } else {
        "9"
    }
}

/// The decimal digits of `n`.
pub fn unsigned_text(n: u64) -> (text: String)
    ensures
        text@ == decimal(n as nat),
    decreases n,
{
    if n < 10 {
        digit(n).to_owned()
    } else {
        let mut text = unsigned_text(n / 10);
        text.append(digit(n % 10));
        text
    }
}

/// The decimal digits of `n`, after a `-` where it is negative.
pub fn signed_text(n: i64) -> (text: String)
    ensures
        text@ == signed_decimal(n as int),
{
    if n < 0 {
        let magnitude: u64 = (-(n as i128)) as u64;
        let digits = unsigned_text(magnitude);
        proof {
            reveal_strlit("-");
        }
        let mut text = "-".to_owned();
        text.append(digits.as_str());
        text
    } else {
        unsigned_text(n as u64)
    }
}

/// `first` followed by `second`.
pub fn joined(first: &str, second: &str) -> (text: String)
    ensures
        text@ == first@ + second@,
{
    let mut text = first.to_owned();
    text.append(second);
    text
}

} // verus!
