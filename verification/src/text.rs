//! Character sequences: the small vocabulary of text operations that the
//! scanner and the evaluator are built from, each with its mathematical model.

use vstd::prelude::*;

verus! {

/// The characters that separate words: the code points that Unicode gives the
/// property `White_Space`.
pub open spec fn is_whitespace(c: char) -> bool {
    let n = c as u32;
    ||| 0x09 <= n <= 0x0D
    ||| n == 0x20
    ||| n == 0x85
    ||| n == 0xA0
    ||| n == 0x1680
    ||| 0x2000 <= n <= 0x200A
    ||| n == 0x2028
    ||| n == 0x2029
    ||| n == 0x202F
    ||| n == 0x205F
    ||| n == 0x3000
}

/// Tells whether `c` separates words.
pub fn whitespace(c: char) -> (b: bool)
    ensures
        b == is_whitespace(c),
{
    let n: u32 = c as u32;
    (0x09 <= n && n <= 0x0D) || n == 0x20 || n == 0x85 || n == 0xA0 || n == 0x1680 || (0x2000 <= n
        && n <= 0x200A) || n == 0x2028 || n == 0x2029 || n == 0x202F || n == 0x205F || n == 0x3000
}

/// The number of whitespace characters that `s` begins with.
pub open spec fn leading_space(s: Seq<char>) -> int
    decreases s.len(),
{
    if s.len() > 0 && is_whitespace(s[0]) {
        1 + leading_space(s.skip(1))
    } else {
        0
    }
}

/// The number of whitespace characters that `s` ends with.
pub open spec fn trailing_space(s: Seq<char>) -> int
    decreases s.len(),
{
    if s.len() > 0 && is_whitespace(s.last()) {
        1 + trailing_space(s.drop_last())
    } else {
        0
    }
}

/// The number of characters before the first whitespace in `s`.
pub open spec fn leading_word(s: Seq<char>) -> int
    decreases s.len(),
{
    if s.len() > 0 && !is_whitespace(s[0]) {
        1 + leading_word(s.skip(1))
    } else {
        0
    }
}

/// `s` without the whitespace at its beginning.
pub open spec fn trim_start(s: Seq<char>) -> Seq<char> {
    s.skip(leading_space(s))
}

/// `s` without the whitespace at its end.
pub open spec fn trim_end(s: Seq<char>) -> Seq<char> {
    s.take(s.len() - trailing_space(s))
}

/// `s` without the whitespace at either end.
pub open spec fn trim(s: Seq<char>) -> Seq<char> {
    trim_end(trim_start(s))
}

/// The maximal runs of non-whitespace characters in `s`, in order.
pub open spec fn words(s: Seq<char>) -> Seq<Seq<char>>
    decreases s.len(),
{
    let rest = trim_start(s);
    if rest.len() == 0 {
        Seq::empty()
    } else {
        let n = leading_word(rest);
        proof {
            lemma_leading_space_bounds(s);
            lemma_leading_word_bounds(rest);
        }
        seq![rest.take(n)] + words(rest.skip(n))
    }
}

/// The whitespace that `s` begins with lies within `s` and ends before a
/// character that is none.
pub proof fn lemma_leading_space_bounds(s: Seq<char>)
    ensures
        0 <= leading_space(s) <= s.len(),
        forall|i: int| 0 <= i < leading_space(s) ==> is_whitespace(#[trigger] s[i]),
        leading_space(s) < s.len() ==> !is_whitespace(s[leading_space(s)]),
    decreases s.len(),
{
    if s.len() > 0 && is_whitespace(s[0]) {
        let t = s.skip(1);
        lemma_leading_space_bounds(t);
        assert forall|i: int| 0 <= i < leading_space(s) implies is_whitespace(#[trigger] s[i]) by {
            if i > 0 {
                assert(s[i] == t[i - 1]);
            }
        }
        if leading_space(s) < s.len() {
            assert(s[leading_space(s)] == t[leading_space(t)]);
        }
    }
}

/// The word that `s` begins with lies within `s` and ends before a
/// whitespace character.
pub proof fn lemma_leading_word_bounds(s: Seq<char>)
    ensures
        0 <= leading_word(s) <= s.len(),
        forall|i: int| 0 <= i < leading_word(s) ==> !is_whitespace(#[trigger] s[i]),
        leading_word(s) < s.len() ==> is_whitespace(s[leading_word(s)]),
    decreases s.len(),
{
    if s.len() > 0 && !is_whitespace(s[0]) {
        let t = s.skip(1);
        lemma_leading_word_bounds(t);
        assert forall|i: int| 0 <= i < leading_word(s) implies !is_whitespace(#[trigger] s[i]) by {
            if i > 0 {
                assert(s[i] == t[i - 1]);
            }
        }
        if leading_word(s) < s.len() {
            assert(s[leading_word(s)] == t[leading_word(t)]);
        }
    }
}

/// A run of whitespace that is followed by the end or by a character that is
/// none is the whole of the leading whitespace.
proof fn lemma_leading_space_is(s: Seq<char>, n: int)
    requires
        0 <= n <= s.len(),
        forall|i: int| 0 <= i < n ==> is_whitespace(#[trigger] s[i]),
        n < s.len() ==> !is_whitespace(s[n]),
    ensures
        leading_space(s) == n,
    decreases n,
{
    if n > 0 {
        let t = s.skip(1);
        assert forall|i: int| 0 <= i < n - 1 implies is_whitespace(#[trigger] t[i]) by {
            assert(t[i] == s[i + 1]);
        }
        if n - 1 < t.len() {
            assert(t[n - 1] == s[n]);
        }
        lemma_leading_space_is(t, n - 1);
    }
}

proof fn lemma_trailing_space_is(s: Seq<char>, n: int)
    requires
        0 <= n <= s.len(),
        forall|i: int| s.len() - n <= i < s.len() ==> is_whitespace(#[trigger] s[i]),
        n < s.len() ==> !is_whitespace(s[s.len() - n - 1]),
    ensures
        trailing_space(s) == n,
    decreases n,
{
    if n > 0 {
        let t = s.drop_last();
        assert forall|i: int| t.len() - (n - 1) <= i < t.len() implies is_whitespace(
            #[trigger] t[i],
        ) by {
            assert(t[i] == s[i]);
        }
        if n - 1 < t.len() {
            assert(t[t.len() - (n - 1) - 1] == s[s.len() - n - 1]);
        }
        lemma_trailing_space_is(t, n - 1);
    }
}

proof fn lemma_leading_word_is(s: Seq<char>, n: int)
    requires
        0 <= n <= s.len(),
        forall|i: int| 0 <= i < n ==> !is_whitespace(#[trigger] s[i]),
        n < s.len() ==> is_whitespace(s[n]),
    ensures
        leading_word(s) == n,
    decreases n,
{
    if n > 0 {
        let t = s.skip(1);
        assert forall|i: int| 0 <= i < n - 1 implies !is_whitespace(#[trigger] t[i]) by {
            assert(t[i] == s[i + 1]);
        }
        if n - 1 < t.len() {
            assert(t[n - 1] == s[n]);
        }
        lemma_leading_word_is(t, n - 1);
    }
}

/// The characters of `v` from `from` up to `to`, as a vector of their own.
pub fn slice(v: &Vec<char>, from: usize, to: usize) -> (r: Vec<char>)
    requires
        from <= to <= v.len(),
    ensures
        r@ == v@.subrange(from as int, to as int),
{
    let mut r: Vec<char> = Vec::new();
    let mut i: usize = from;
    while i < to
        invariant
            from <= i <= to <= v.len(),
            r@ == v@.subrange(from as int, i as int),
        decreases to - i,
    {
        r.push(v[i]);
        i += 1;
        assert(r@ =~= v@.subrange(from as int, i as int));
    }
    r
}

/// Removes the whitespace at both ends of `v`.
pub fn trimmed(v: &Vec<char>) -> (r: Vec<char>)
    ensures
        r@ == trim(v@),
{
    let mut from: usize = 0;
    while from < v.len() && whitespace(v[from])
        invariant
            from <= v.len(),
            forall|i: int| 0 <= i < from ==> is_whitespace(#[trigger] v@[i]),
        decreases v.len() - from,
    {
        from += 1;
    }
    let mut to: usize = v.len();
    while to > from && whitespace(v[to - 1])
        invariant
            from <= to <= v.len(),
            forall|i: int| to <= i < v.len() ==> is_whitespace(#[trigger] v@[i]),
        decreases to,
    {
        to -= 1;
    }
    proof {
        lemma_leading_space_is(v@, from as int);
        let t = v@.skip(from as int);
        assert forall|i: int| t.len() - (v.len() - to) <= i < t.len() implies is_whitespace(
            #[trigger] t[i],
        ) by {
            assert(t[i] == v@[i + from]);
        }
        if v.len() - to < t.len() {
            assert(t[t.len() - (v.len() - to) - 1] == v@[to - 1]);
        }
        lemma_trailing_space_is(t, (v.len() - to) as int);
        assert(trim(v@) =~= v@.subrange(from as int, to as int));
    }
    slice(v, from, to)
}

/// Splits `v` at its whitespace into the words it holds.
pub fn split_words(v: &Vec<char>) -> (r: Vec<Vec<char>>)
    ensures
        r@.len() == words(v@).len(),
        forall|i: int| 0 <= i < r@.len() ==> (#[trigger] r@[i])@ == words(v@)[i],
{
    let mut r: Vec<Vec<char>> = Vec::new();
    let mut i: usize = 0;
    let ghost mut done: Seq<Seq<char>> = Seq::empty();
    proof {
        assert(v@.skip(0) =~= v@);
        assert(done + words(v@) =~= words(v@));
    }
    loop
        invariant
            i <= v.len(),
            done.len() == r@.len(),
            forall|j: int| 0 <= j < r@.len() ==> (#[trigger] r@[j])@ == done[j],
            words(v@) == done + words(v@.skip(i as int)),
        ensures
            r@.len() == words(v@).len(),
            forall|j: int| 0 <= j < r@.len() ==> (#[trigger] r@[j])@ == words(v@)[j],
        decreases v.len() - i,
    {
        let ghost rest = v@.skip(i as int);
        let mut from: usize = i;
        while from < v.len() && whitespace(v[from])
            invariant
                i <= from <= v.len(),
                forall|j: int| i <= j < from ==> is_whitespace(#[trigger] v@[j]),
            decreases v.len() - from,
        {
            from += 1;
        }
        proof {
            assert forall|j: int| 0 <= j < from - i implies is_whitespace(#[trigger] rest[j]) by {
                assert(rest[j] == v@[j + i]);
            }
            lemma_leading_space_is(rest, from - i);
            assert(trim_start(rest) =~= v@.skip(from as int));
        }
        if from == v.len() {
            proof {
                assert(words(rest) =~= Seq::<Seq<char>>::empty());
                assert(words(v@) =~= done);
            }
            break;
        }
        let mut to: usize = from;
        while to < v.len() && !whitespace(v[to])
            invariant
                from <= to <= v.len(),
                forall|j: int| from <= j < to ==> !is_whitespace(#[trigger] v@[j]),
            decreases v.len() - to,
        {
            to += 1;
        }
        let word = slice(v, from, to);
        proof {
            let tail = v@.skip(from as int);
            assert forall|j: int| 0 <= j < to - from implies !is_whitespace(#[trigger] tail[j]) by {
                assert(tail[j] == v@[j + from]);
            }
            lemma_leading_word_is(tail, to - from);
            assert(tail.take(to - from) =~= word@);
            assert(tail.skip(to - from) =~= v@.skip(to as int));
            assert(words(rest) == seq![word@] + words(v@.skip(to as int)));
            assert(done + (seq![word@] + words(v@.skip(to as int))) =~= done.push(word@) + words(
                v@.skip(to as int),
            ));
            done = done.push(word@);
        }
        r.push(word);
        i = to;
    }
    r
}

/// Whether `pattern` stands in `s` at index `at`. A pattern of no characters
/// stands nowhere.
pub open spec fn occurs_at(s: Seq<char>, pattern: Seq<char>, at: int) -> bool {
    &&& pattern.len() > 0
    &&& 0 <= at
    &&& at + pattern.len() <= s.len()
    &&& s.subrange(at, at + pattern.len()) == pattern
}

/// The first index at or after `from` at which `pattern` stands in `s`.
pub open spec fn find(s: Seq<char>, pattern: Seq<char>, from: int) -> Option<int>
    decreases s.len() - from,
{
    if pattern.len() == 0 || from < 0 || from + pattern.len() > s.len() {
        None
    } else if occurs_at(s, pattern, from) {
        Some(from)
    } else {
        find(s, pattern, from + 1)
    }
}

/// What is found stands at or after the index from which it was looked for.
pub proof fn lemma_find_bounds(s: Seq<char>, pattern: Seq<char>, from: int)
    ensures
        match find(s, pattern, from) {
            Some(at) => from <= at && occurs_at(s, pattern, at),
            None => true,
        },
    decreases s.len() - from,
{
    if pattern.len() == 0 || from < 0 || from + pattern.len() > s.len() {
    } else if occurs_at(s, pattern, from) {
    } else {
        lemma_find_bounds(s, pattern, from + 1);
    }
}

/// The part of `s` from `from` on, with `with` in place of every occurrence
/// of `pattern`, taken from the left and never overlapping.
pub open spec fn replace_from(s: Seq<char>, pattern: Seq<char>, with: Seq<char>, from: int) -> Seq<
    char,
>
    decreases s.len() - from,
{
    match find(s, pattern, from) {
        Some(at) => {
            proof {
                lemma_find_bounds(s, pattern, from);
            }
            s.subrange(from, at) + with + replace_from(s, pattern, with, at + pattern.len())
        },
        None => s.skip(from),
    }
}

/// `s` with `with` in place of every occurrence of `pattern`.
pub open spec fn replace(s: Seq<char>, pattern: Seq<char>, with: Seq<char>) -> Seq<char> {
    replace_from(s, pattern, with, 0)
}

/// The digit that stands for `d`.
pub open spec fn digit(d: int) -> char {
    ((48 + d) as u8) as char
}

/// The decimal digits of `n`, most significant first.
pub open spec fn digits(n: nat) -> Seq<char>
    decreases n,
{
    if n < 10 {
        seq![digit(n as int)]
    } else {
        digits(n / 10).push(digit((n % 10) as int))
    }
}

/// `n` written in decimal, with a minus sign in front where it is negative.
pub open spec fn decimal(n: int) -> Seq<char> {
    if n < 0 {
        seq!['-'] + digits((-n) as nat)
    } else {
        digits(n as nat)
    }
}

/// Whether two vectors hold the same characters.
pub fn same_text(a: &Vec<char>, b: &Vec<char>) -> (r: bool)
    ensures
        r == (a@ == b@),
{
    if a.len() != b.len() {
        return false;
    }
    let mut i: usize = 0;
    while i < a.len()
        invariant
            i <= a.len(),
            a.len() == b.len(),
            a@.take(i as int) == b@.take(i as int),
        decreases a.len() - i,
    {
        if a[i] != b[i] {
            return false;
        }
        i += 1;
        assert(a@.take(i as int) =~= a@.take(i - 1).push(a@[i - 1]));
        assert(b@.take(i as int) =~= b@.take(i - 1).push(b@[i - 1]));
    }
    assert(a@ =~= a@.take(i as int));
    assert(b@ =~= b@.take(i as int));
    true
}

/// Whether `a` holds exactly the characters of `word`.
pub fn is_word(a: &Vec<char>, word: &str) -> (r: bool)
    ensures
        r == (a@ == word@),
{
    let mut i: usize = 0;
    let mut same = true;
    for c in it: word.chars()
        invariant
            it.seq() == word@,
            same ==> i == it.index() && i <= a.len() && a@.take(i as int) == word@.take(i as int),
            !same ==> a@ != word@,
    {
        if same {
            if i < a.len() && a[i] == c {
                i += 1;
                assert(a@.take(i as int) =~= a@.take(i - 1).push(a@[i - 1]));
                assert(word@.take(i as int) =~= word@.take(i - 1).push(word@[i - 1]));
            } else {
                same = false;
            }
        }
    }
    if same {
        assert(word@ =~= word@.take(i as int));
        if i == a.len() {
            assert(a@ =~= a@.take(i as int));
        }
    }
    same && i == a.len()
}

/// The characters of `s`.
pub fn chars_of(s: &str) -> (v: Vec<char>)
    ensures
        v@ == s@,
{
    let mut v: Vec<char> = Vec::new();
    for c in it: s.chars()
        invariant
            it.seq() == s@,
            v@ =~= it.seq().take(it.index() as int),
    {
        v.push(c);
    }
    assert(v@ =~= s@);
    v
}

/// `String::push`: the string gains `c` at its end and is otherwise as it was.
#[verifier::external_body]
fn push_char(s: &mut String, c: char)
    ensures
        final(s)@ == old(s)@.push(c),
{
    s.push(c);
}

/// Appends the characters of `v` to `s`.
pub fn append_chars(s: &mut String, v: &Vec<char>)
    ensures
        final(s)@ == old(s)@ + v@,
{
    let mut i: usize = 0;
    assert(s@ =~= old(s)@ + v@.take(0));
    while i < v.len()
        invariant
            i <= v.len(),
            s@ == old(s)@ + v@.take(i as int),
        decreases v.len() - i,
    {
        push_char(s, v[i]);
        i += 1;
        assert(s@ =~= old(s)@ + v@.take(i as int));
    }
    assert(v@.take(i as int) =~= v@);
}

/// A string of the characters of `v`.
pub fn text_of(v: &Vec<char>) -> (s: String)
    ensures
        s@ == v@,
{
    let mut s = String::new();
    append_chars(&mut s, v);
    assert(s@ =~= v@);
    s
}

/// Whether `pattern` stands in `v` at index `at`.
pub fn stands_at(v: &Vec<char>, pattern: &Vec<char>, at: usize) -> (r: bool)
    ensures
        r == occurs_at(v@, pattern@, at as int),
{
    if pattern.len() == 0 || pattern.len() > v.len() || at > v.len() - pattern.len() {
        return false;
    }
    let mut i: usize = 0;
    while i < pattern.len()
        invariant
            i <= pattern.len(),
            at + pattern.len() <= v.len(),
            v@.subrange(at as int, at + i) == pattern@.take(i as int),
        decreases pattern.len() - i,
    {
        if v[at + i] != pattern[i] {
            assert(v@.subrange(at as int, at + pattern.len())[i as int] != pattern@[i as int]);
            return false;
        }
        i += 1;
        assert(v@.subrange(at as int, at + i) =~= v@.subrange(at as int, at + i - 1).push(
            v@[at + i - 1],
        ));
        assert(pattern@.take(i as int) =~= pattern@.take(i - 1).push(pattern@[i - 1]));
    }
    assert(pattern@.take(i as int) =~= pattern@);
    true
}

/// Looks for `pattern` in `v`, from index `from` on.
pub fn find_in(v: &Vec<char>, pattern: &Vec<char>, from: usize) -> (r: Option<usize>)
    ensures
        match r {
            Some(at) => find(v@, pattern@, from as int) == Some(at as int),
            None => find(v@, pattern@, from as int) is None,
        },
{
    if pattern.len() == 0 {
        return None;
    }
    let mut i: usize = from;
    while pattern.len() <= v.len() && i <= v.len() - pattern.len()
        invariant
            from <= i,
            pattern.len() > 0,
            find(v@, pattern@, from as int) == find(v@, pattern@, i as int),
        decreases v.len() - i,
    {
        if stands_at(v, pattern, i) {
            return Some(i);
        }
        i += 1;
    }
    None
}

/// Replaces every occurrence of `pattern` in `v` by `with`.
pub fn replace_all(v: &Vec<char>, pattern: &Vec<char>, with: &Vec<char>) -> (r: Vec<char>)
    ensures
        r@ == replace(v@, pattern@, with@),
{
    let mut r: Vec<char> = Vec::new();
    let mut from: usize = 0;
    assert(r@ + replace_from(v@, pattern@, with@, 0) =~= replace(v@, pattern@, with@));
    loop
        invariant_except_break
            from <= v.len(),
            r@ + replace_from(v@, pattern@, with@, from as int) == replace(v@, pattern@, with@),
        ensures
            r@ == replace(v@, pattern@, with@),
        decreases v.len() - from,
    {
        match find_in(v, pattern, from) {
            Some(at) => {
                proof {
                    lemma_find_bounds(v@, pattern@, from as int);
                }
                let ghost before = r@;
                let mut i: usize = from;
                while i < at
                    invariant
                        from <= i <= at <= v.len(),
                        r@ == before + v@.subrange(from as int, i as int),
                    decreases at - i,
                {
                    r.push(v[i]);
                    i += 1;
                    assert(r@ =~= before + v@.subrange(from as int, i as int));
                }
                let ghost middle = r@;
                let mut j: usize = 0;
                while j < with.len()
                    invariant
                        j <= with.len(),
                        r@ == middle + with@.take(j as int),
                    decreases with.len() - j,
                {
                    r.push(with[j]);
                    j += 1;
                    assert(r@ =~= middle + with@.take(j as int));
                }
                proof {
                    assert(with@.take(j as int) =~= with@);
                    assert(r@ + replace_from(v@, pattern@, with@, at + pattern.len()) =~= before
                        + replace_from(v@, pattern@, with@, from as int));
                }
                from = at + pattern.len();
            },
            None => {
                let ghost before = r@;
                let mut i: usize = from;
                while i < v.len()
                    invariant
                        from <= i <= v.len(),
                        r@ == before + v@.subrange(from as int, i as int),
                    decreases v.len() - i,
                {
                    r.push(v[i]);
                    i += 1;
                    assert(r@ =~= before + v@.subrange(from as int, i as int));
                }
                proof {
                    assert(v@.subrange(from as int, v.len() as int) =~= v@.skip(from as int));
                }
                break;
            },
        }
    }
    r
}

/// Appends the decimal digits of `n` to `out`.
pub fn push_digits(n: u64, out: &mut Vec<char>)
    ensures
        final(out)@ == old(out)@ + digits(n as nat),
    decreases n,
{
    if n >= 10 {
        push_digits(n / 10, out);
    }
    let d: u8 = (n % 10) as u8;
    out.push((48u8 + d) as char);
    assert(out@ =~= old(out)@ + digits(n as nat));
}

/// Writes `n` in decimal.
pub fn decimal_of(n: i64) -> (r: Vec<char>)
    ensures
        r@ == decimal(n as int),
{
    let mut r: Vec<char> = Vec::new();
    if n < 0 {
        r.push('-');
        let magnitude: u64 = if n == i64::MIN {
            9223372036854775808u64
        } else {
            (-n) as u64
        };
        push_digits(magnitude, &mut r);
        assert(r@ =~= decimal(n as int));
    } else {
        push_digits(n as u64, &mut r);
        assert(r@ =~= decimal(n as int));
    }
    r
}

} // verus!
