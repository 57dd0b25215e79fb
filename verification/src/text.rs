//! Character-level text primitives with their specifications: splitting on a
//! separator, trimming, decimal numbers, ASCII lower-casing and replacing.

use vstd::prelude::*;

verus! {

// ---------------------------------------------------------------------------
// Trusted items over std
// ---------------------------------------------------------------------------

/// `String::push`: appends one character at the end of the string.
#[verifier::external_body]
pub(crate) fn push_char(s: &mut String, c: char)
    ensures
        final(s)@ == old(s)@.push(c),
{
    s.push(c);
}

/// `String::from_utf8`: `Some` exactly when the bytes are well-formed UTF-8,
/// and then the decoded characters.
#[verifier::external_body]
pub(crate) fn string_from_utf8(bytes: Vec<u8>) -> (r: Option<String>)
    ensures
        r is Some <==> vstd::utf8::valid_utf8(bytes@),
        r matches Some(s) ==> s@ == vstd::utf8::decode_utf8(bytes@),
{
    String::from_utf8(bytes).ok()
}

// ---------------------------------------------------------------------------
// Searching and splitting
// ---------------------------------------------------------------------------

/// The first position at or after `from` that holds `x`.
pub open spec fn find_from<T>(s: Seq<T>, x: T, from: nat) -> Option<nat>
    decreases s.len() - from,
{
    if from >= s.len() {
        None
    } else if s[from as int] == x {
        Some(from)
    } else {
        find_from(s, x, from + 1)
    }
}

pub proof fn lemma_find_from<T>(s: Seq<T>, x: T, from: nat)
    ensures
        match find_from(s, x, from) {
            Some(i) => from <= i < s.len() && s[i as int] == x && forall|j: int|
                from <= j < i ==> s[j] != x,
            None => forall|j: int| from <= j < s.len() ==> s[j] != x,
        },
    decreases s.len() - from,
{
    if from < s.len() && s[from as int] != x {
        lemma_find_from(s, x, from + 1);
    }
}

/// The pieces of `s` from position `from` on, cut at every `x`
/// (what `split` gives for a one-element separator).
pub open spec fn split_from<T>(s: Seq<T>, x: T, from: nat) -> Seq<Seq<T>>
    decreases s.len() - from,
{
    if from > s.len() {
        seq![]
    } else {
        match find_from(s, x, from) {
            None => seq![s.subrange(from as int, s.len() as int)],
            Some(i) => {
                proof {
                    lemma_find_from(s, x, from);
                }
                seq![s.subrange(from as int, i as int)] + split_from(s, x, i + 1)
            },
        }
    }
}

/// `s` cut at every occurrence of `x`: one more piece than there are `x`s.
pub open spec fn split<T>(s: Seq<T>, x: T) -> Seq<Seq<T>> {
    split_from(s, x, 0)
}

/// `s` cut at the first two occurrences of `x` at most (what `splitn(3, x)`
/// gives): the last piece keeps any further `x`.
pub open spec fn split3<T>(s: Seq<T>, x: T) -> Seq<Seq<T>> {
    match find_from(s, x, 0) {
        None => seq![s],
        Some(i) => match find_from(s, x, i + 1) {
            None => seq![s.take(i as int), s.skip(i as int + 1)],
            Some(j) => seq![s.take(i as int), s.subrange(i as int + 1, j as int), s.skip(j as int + 1)],
        },
    }
}

/// The last position of `x` in `s`.
pub open spec fn last_index<T>(s: Seq<T>, x: T) -> Option<nat>
    decreases s.len(),
{
    if s.len() == 0 {
        None
    } else if s.last() == x {
        Some((s.len() - 1) as nat)
    } else {
        last_index(s.drop_last(), x)
    }
}

pub proof fn lemma_last_index<T>(s: Seq<T>, x: T)
    ensures
        match last_index(s, x) {
            Some(i) => i < s.len() && s[i as int] == x && forall|j: int|
                i < j < s.len() ==> s[j] != x,
            None => forall|j: int| 0 <= j < s.len() ==> s[j] != x,
        },
    decreases s.len(),
{
    if s.len() > 0 && s.last() != x {
        lemma_last_index(s.drop_last(), x);
        assert(forall|j: int| 0 <= j < s.len() - 1 ==> s.drop_last()[j] == s[j]);
    }
}

/// The pieces joined back together with `x` between them.
pub open spec fn join<T>(pieces: Seq<Seq<T>>, x: T) -> Seq<T>
    decreases pieces.len(),
{
    if pieces.len() == 0 {
        seq![]
    } else if pieces.len() == 1 {
        pieces[0]
    } else {
        pieces[0] + seq![x] + join(pieces.drop_first(), x)
    }
}

proof fn lemma_split_from_join<T>(s: Seq<T>, x: T, from: nat)
    requires
        from <= s.len(),
    ensures
        split_from(s, x, from).len() >= 1,
        join(split_from(s, x, from), x) == s.subrange(from as int, s.len() as int),
        forall|k: int| 0 <= k < split_from(s, x, from).len() ==> !(#[trigger] split_from(s, x, from)[k]).contains(x),
    decreases s.len() - from,
{
    lemma_find_from(s, x, from);
    match find_from(s, x, from) {
        None => {
            let p = s.subrange(from as int, s.len() as int);
            assert(split_from(s, x, from) =~= seq![p]);
            assert forall|k: int| 0 <= k < split_from(s, x, from).len() implies !(
            #[trigger] split_from(s, x, from)[k]).contains(x) by {
                if p.contains(x) {
                    let j = choose|j: int| 0 <= j < p.len() && p[j] == x;
                    assert(s[from + j] == x);
                }
            }
        },
        Some(i) => {
            lemma_split_from_join(s, x, i + 1);
            let head = s.subrange(from as int, i as int);
            let rest = split_from(s, x, i + 1);
            let all = split_from(s, x, from);
            assert(all =~= seq![head] + rest);
            assert(all.drop_first() =~= rest);
            assert(all[0] == head);
            assert(join(all, x) == head + seq![x] + join(rest, x));
            assert(head + seq![x] + s.subrange(i as int + 1, s.len() as int) =~= s.subrange(
                from as int,
                s.len() as int,
            ));
            assert forall|k: int| 0 <= k < all.len() implies !(#[trigger] all[k]).contains(x) by {
                if k == 0 {
                    if head.contains(x) {
                        let j = choose|j: int| 0 <= j < head.len() && head[j] == x;
                        assert(s[from + j] == x);
                    }
                } else {
                    assert(all[k] == rest[k - 1]);
                }
            }
        },
    }
}

/// Cutting at every `x` and joining the pieces with `x` gives the text
/// back, and no piece holds an `x`.
pub proof fn lemma_split_join<T>(s: Seq<T>, x: T)
    ensures
        join(split(s, x), x) == s,
        forall|k: int| 0 <= k < split(s, x).len() ==> !(#[trigger] split(s, x)[k]).contains(x),
{
    lemma_split_from_join(s, x, 0);
    assert(s.subrange(0, s.len() as int) =~= s);
}

/// The first `x` at or after `from` is at `k` when `s[k]` is `x` and no
/// earlier position from `from` on holds one.
pub proof fn lemma_find_from_at<T>(s: Seq<T>, x: T, from: nat, k: int)
    requires
        from <= k < s.len(),
        s[k] == x,
        forall|j: int| from <= j < k ==> s[j] != x,
    ensures
        find_from(s, x, from) == Some(k as nat),
{
    lemma_find_from(s, x, from);
}

/// Splitting a text that holds no `x` gives the text alone.
pub proof fn lemma_split_without_sep<T>(l: Seq<T>, x: T)
    requires
        !l.contains(x),
    ensures
        split(l, x) == seq![l],
{
    lemma_find_from(l, x, 0);
    if find_from(l, x, 0) is Some {
        let i = find_from(l, x, 0)->0;
        assert(l[i as int] == x);
    }
    assert(l.subrange(0, l.len() as int) =~= l);
}

proof fn lemma_split_from_append<T>(a: Seq<T>, x: T, l: Seq<T>, from: nat)
    requires
        from <= a.len(),
        !l.contains(x),
    ensures
        split_from(a + seq![x] + l, x, from) == split_from(a, x, from).push(l),
    decreases a.len() - from,
{
    let s = a + seq![x] + l;
    lemma_find_from(a, x, from);
    lemma_find_from(s, x, from);
    match find_from(a, x, from) {
        None => {
            lemma_find_from_at(s, x, from, a.len() as int);
            let rest = (a.len() + 1) as nat;
            lemma_find_from(s, x, rest);
            if find_from(s, x, rest) is Some {
                let i = find_from(s, x, rest)->0;
                assert(l[i - rest] == s[i as int]);
            }
            assert(s.subrange(rest as int, s.len() as int) =~= l);
            assert(s.subrange(from as int, a.len() as int) =~= a.subrange(from as int, a.len() as int));
            assert(split_from(s, x, rest) =~= seq![l]);
            assert(split_from(s, x, from) =~= split_from(a, x, from).push(l));
        },
        Some(i) => {
            lemma_find_from_at(s, x, from, i as int);
            lemma_split_from_append(a, x, l, i + 1);
            assert(s.subrange(from as int, i as int) =~= a.subrange(from as int, i as int));
            assert(split_from(s, x, from) =~= split_from(a, x, from).push(l));
        },
    }
}

/// Appending `x` and a piece without `x` appends that piece to the split.
pub proof fn lemma_split_append<T>(a: Seq<T>, x: T, l: Seq<T>)
    requires
        !l.contains(x),
    ensures
        split(a + seq![x] + l, x) == split(a, x).push(l),
{
    lemma_split_from_append(a, x, l, 0);
}

/// The last `x` is at `k` when `s[k]` is `x` and no later position holds one.
pub proof fn lemma_last_index_at<T>(s: Seq<T>, x: T, k: int)
    requires
        0 <= k < s.len(),
        s[k] == x,
        forall|j: int| k < j < s.len() ==> s[j] != x,
    ensures
        last_index(s, x) == Some(k as nat),
{
    lemma_last_index(s, x);
}

/// The last `x` of `a + [x] + b`, where `b` holds no `x`, is the one
/// between them; a text without `x` has none.
pub proof fn lemma_last_index_append<T>(a: Seq<T>, x: T, b: Seq<T>)
    ensures
        !b.contains(x) ==> last_index(a + seq![x] + b, x) == Some(a.len()),
        !b.contains(x) ==> last_index(b, x) is None,
{
    if !b.contains(x) {
        let s = a + seq![x] + b;
        assert forall|j: int| a.len() < j < s.len() implies s[j] != x by {
            assert(s[j] == b[j - a.len() - 1]);
        }
        lemma_last_index_at(s, x, a.len() as int);
        lemma_last_index(b, x);
        if last_index(b, x) is Some {
            let i = last_index(b, x)->0;
            assert(b[i as int] == x);
        }
    }
}

/// The first position at or after `from` where `v` holds the character `c`.
pub fn find_char(v: &Vec<char>, c: char, from: usize) -> (r: Option<usize>)
    ensures
        match r {
            Some(i) => find_from(v@, c, from as nat) == Some(i as nat),
            None => find_from(v@, c, from as nat) is None,
        },
{
    let mut i = from;
    while i < v.len()
        invariant
            from <= i,
            find_from(v@, c, from as nat) == find_from(v@, c, i as nat),
        decreases v.len() - i,
    {
        if v[i] == c {
            return Some(i);
        }
        i = i + 1;
    }
    None
}

/// The first position at or after `from` where `v` holds `x`.
pub fn find_first<T: PartialEq + Copy>(v: &Vec<T>, x: T, from: usize) -> (r: Option<usize>)
    requires
        vstd::laws_eq::obeys_concrete_eq::<T>(),
    ensures
        match r {
            Some(i) => find_from(v@, x, from as nat) == Some(i as nat),
            None => find_from(v@, x, from as nat) is None,
        },
{
    proof {
        reveal(vstd::laws_eq::obeys_concrete_eq);
    }
    let mut i = from;
    while i < v.len()
        invariant
            from <= i,
            find_from(v@, x, from as nat) == find_from(v@, x, i as nat),
            vstd::laws_eq::obeys_concrete_eq::<T>(),
        decreases v.len() - i,
    {
        proof {
            reveal(vstd::laws_eq::obeys_concrete_eq);
        }
        if v[i] == x {
            return Some(i);
        }
        i = i + 1;
    }
    None
}

/// The elements `v[a..b]`.
pub fn copy_range<T: Copy>(v: &Vec<T>, a: usize, b: usize) -> (r: Vec<T>)
    requires
        a <= b <= v.len(),
    ensures
        r@ == v@.subrange(a as int, b as int),
{
    let mut r: Vec<T> = Vec::new();
    let mut i = a;
    while i < b
        invariant
            a <= i <= b <= v.len(),
            r@ == v@.subrange(a as int, i as int),
        decreases b - i,
    {
        r.push(v[i]);
        i = i + 1;
        assert(r@ =~= v@.subrange(a as int, i as int));
    }
    r
}

/// The last position of `c` in `v`, or `None`.
pub fn last_index_of(v: &Vec<char>, c: char) -> (r: Option<usize>)
    ensures
        match r {
            Some(i) => last_index(v@, c) == Some(i as nat),
            None => last_index(v@, c) is None,
        },
{
    let mut i = v.len();
    assert(v@.take(i as int) =~= v@);
    while i > 0
        invariant
            i <= v.len(),
            last_index(v@, c) == last_index(v@.take(i as int), c),
        decreases i,
    {
        assert(v@.take(i as int).drop_last() =~= v@.take(i - 1));
        if v[i - 1] == c {
            return Some(i - 1);
        }
        i = i - 1;
    }
    None
}

/// The characters `v[a..b]` as a string.
pub fn string_of(v: &Vec<char>, a: usize, b: usize) -> (s: String)
    requires
        a <= b <= v.len(),
    ensures
        s@ == v@.subrange(a as int, b as int),
{
    let mut s = String::new();
    let mut i = a;
    while i < b
        invariant
            a <= i <= b <= v.len(),
            s@ == v@.subrange(a as int, i as int),
        decreases b - i,
    {
        push_char(&mut s, v[i]);
        i = i + 1;
        assert(s@ =~= v@.subrange(a as int, i as int));
    }
    s
}

/// The characters of `s`, in order.
pub fn chars_of(s: &str) -> (v: Vec<char>)
    ensures
        v@ == s@,
{
    broadcast use vstd::string::group_string_axioms;

    let mut v: Vec<char> = Vec::new();
    for c in it: s.chars()
        invariant
            v@ == it.seq().take(it.index() as int),
            it.seq() == s@,
    {
        v.push(c);
    }
    v
}

// ---------------------------------------------------------------------------
// Trimming
// ---------------------------------------------------------------------------

/// Whether a character has the Unicode `White_Space` property (what
/// `char::is_whitespace` decides): tab, line feed, vertical tab, form feed,
/// carriage return, space, next line, no-break space, ogham space mark, the
/// spaces U+2000..=U+200A, line separator, paragraph separator, narrow
/// no-break space, medium mathematical space and ideographic space.
pub open spec fn unicode_whitespace(c: char) -> bool {
    let u = c as u32;
    ||| 0x09 <= u && u <= 0x0D
    ||| u == 0x20
    ||| u == 0x85
    ||| u == 0xA0
    ||| u == 0x1680
    ||| 0x2000 <= u && u <= 0x200A
    ||| u == 0x2028
    ||| u == 0x2029
    ||| u == 0x202F
    ||| u == 0x205F
    ||| u == 0x3000
}

/// Whether `c` has the Unicode `White_Space` property.
pub fn is_whitespace(c: char) -> (r: bool)
    ensures
        r == unicode_whitespace(c),
{
    let u = c as u32;
    (0x09 <= u && u <= 0x0D) || u == 0x20 || u == 0x85 || u == 0xA0 || u == 0x1680 || (0x2000
        <= u && u <= 0x200A) || u == 0x2028 || u == 0x2029 || u == 0x202F || u == 0x205F || u
        == 0x3000
}

/// `s` without its leading whitespace.
pub open spec fn trim_start(s: Seq<char>) -> Seq<char>
    decreases s.len(),
{
    if s.len() > 0 && unicode_whitespace(s[0]) {
        trim_start(s.drop_first())
    } else {
        s
    }
}

/// `s` without its trailing whitespace.
pub open spec fn trim_end(s: Seq<char>) -> Seq<char>
    decreases s.len(),
{
    if s.len() > 0 && unicode_whitespace(s.last()) {
        trim_end(s.drop_last())
    } else {
        s
    }
}

/// `s` without leading and trailing whitespace (what `str::trim` gives).
pub open spec fn trim(s: Seq<char>) -> Seq<char> {
    trim_end(trim_start(s))
}

proof fn lemma_trim_start(s: Seq<char>)
    ensures
        trim_start(s).len() <= s.len(),
        trim_start(s) == s.skip(s.len() - trim_start(s).len()),
        forall|i: int| 0 <= i < s.len() - trim_start(s).len() ==> unicode_whitespace(#[trigger] s[i]),
        trim_start(s).len() > 0 ==> !unicode_whitespace(trim_start(s)[0]),
    decreases s.len(),
{
    if s.len() > 0 && unicode_whitespace(s[0]) {
        lemma_trim_start(s.drop_first());
        assert forall|i: int| 0 <= i < s.len() - trim_start(s).len() implies unicode_whitespace(
            #[trigger] s[i],
        ) by {
            if i > 0 {
                assert(s[i] == s.drop_first()[i - 1]);
            }
        }
        assert(s.drop_first().skip(s.drop_first().len() - trim_start(s).len()) =~= s.skip(
            s.len() - trim_start(s).len(),
        ));
    } else {
        assert(s.skip(0) =~= s);
    }
}

proof fn lemma_trim_end(s: Seq<char>)
    ensures
        trim_end(s).len() <= s.len(),
        trim_end(s) == s.take(trim_end(s).len() as int),
        forall|i: int| trim_end(s).len() <= i < s.len() ==> unicode_whitespace(#[trigger] s[i]),
        trim_end(s).len() > 0 ==> !unicode_whitespace(trim_end(s).last()),
    decreases s.len(),
{
    if s.len() > 0 && unicode_whitespace(s.last()) {
        lemma_trim_end(s.drop_last());
        assert forall|i: int| trim_end(s).len() <= i < s.len() implies unicode_whitespace(
            #[trigger] s[i],
        ) by {
            if i < s.len() - 1 {
                assert(s[i] == s.drop_last()[i]);
            }
        }
        assert(s.drop_last().take(trim_end(s).len() as int) =~= s.take(trim_end(s).len() as int));
    } else {
        assert(s.take(s.len() as int) =~= s);
    }
}

/// Trimming keeps a contiguous part of the text that neither starts nor
/// ends with whitespace and drops only whitespace around it, and trimming
/// it again changes nothing.
pub proof fn lemma_trim(s: Seq<char>)
    ensures
        exists|a: int, b: int|
            0 <= a <= b <= s.len() && trim(s) == s.subrange(a, b) && (forall|i: int|
                0 <= i < a ==> unicode_whitespace(#[trigger] s[i])) && (forall|i: int|
                b <= i < s.len() ==> unicode_whitespace(#[trigger] s[i])),
        trim(s).len() > 0 ==> !unicode_whitespace(trim(s)[0]) && !unicode_whitespace(
            trim(s).last(),
        ),
        trim(trim(s)) == trim(s),
{
    let u = trim_start(s);
    lemma_trim_start(s);
    lemma_trim_end(u);
    let t = trim_end(u);
    let a = s.len() - u.len();
    assert(t =~= s.subrange(a, a + t.len()));
    assert forall|i: int| a + t.len() <= i < s.len() implies unicode_whitespace(#[trigger] s[i]) by {
        assert(s[i] == u[i - a]);
    }
    assert(0 <= a <= a + t.len() <= s.len() && trim(s) == s.subrange(a, a + t.len()) && (forall|
        i: int,
    | 0 <= i < a ==> unicode_whitespace(#[trigger] s[i])) && (forall|i: int|
        a + t.len() <= i < s.len() ==> unicode_whitespace(#[trigger] s[i])));
    if t.len() > 0 {
        assert(t[0] == u[0]);
    }
    // t neither starts nor ends with whitespace, so trimming leaves it as is.
    assert(trim_start(t) == t);
    assert(trim_end(t) == t);
}

/// A text that starts with a character other than whitespace is its own
/// `trim_start`; one that ends with such a character is its own `trim_end`.
pub proof fn lemma_trim_unchanged(s: Seq<char>)
    ensures
        s.len() > 0 && !unicode_whitespace(s[0]) ==> trim_start(s) == s,
        s.len() > 0 && !unicode_whitespace(s.last()) ==> trim_end(s) == s,
{
}

/// When `a` ends with a character other than whitespace, trimming the
/// start of `a + b` trims the start of `a` only, and keeps that last
/// character.
pub proof fn lemma_trim_start_append(a: Seq<char>, b: Seq<char>)
    requires
        a.len() > 0,
        !unicode_whitespace(a.last()),
    ensures
        trim_start(a + b) == trim_start(a) + b,
        trim_start(a).len() > 0,
        trim_start(a).last() == a.last(),
    decreases a.len(),
{
    if unicode_whitespace(a[0]) {
        assert(a.len() > 1);
        lemma_trim_start_append(a.drop_first(), b);
        assert((a + b).drop_first() =~= a.drop_first() + b);
    }
}

/// `v` without leading and trailing whitespace.
pub fn trim_chars(v: &Vec<char>) -> (r: Vec<char>)
    ensures
        r@ == trim(v@),
{
    let n = v.len();
    let mut a: usize = 0;
    assert(v@.skip(0) =~= v@);
    while a < n && is_whitespace(v[a])
        invariant
            a <= n == v.len(),
            trim_start(v@) == trim_start(v@.skip(a as int)),
        decreases n - a,
    {
        assert(v@.skip(a as int).drop_first() =~= v@.skip(a + 1));
        a = a + 1;
    }
    let ghost front = v@.skip(a as int);
    assert(trim_start(v@) == front);
    let mut b: usize = n;
    while b > a && is_whitespace(v[b - 1])
        invariant
            a <= b <= n == v.len(),
            front == v@.skip(a as int),
            trim_end(front) == trim_end(v@.subrange(a as int, b as int)),
        decreases b,
    {
        assert(v@.subrange(a as int, b as int).drop_last() =~= v@.subrange(a as int, b - 1));
        b = b - 1;
    }
    let r = copy_range(v, a, b);
    assert(v@.skip(a as int) =~= v@.subrange(a as int, n as int));
    r
}

// ---------------------------------------------------------------------------
// ASCII lower-casing
// ---------------------------------------------------------------------------

/// ASCII lower-casing of one character.
pub open spec fn lower_char(c: char) -> char {
    if 'A' <= c && c <= 'Z' {
        ((c as u32) + 32) as char
    } else {
        c
    }
}

/// ASCII lower-casing of a text (what `str::to_ascii_lowercase` gives):
/// every 'A'..='Z' becomes 'a'..='z', every other character stays.
pub open spec fn ascii_lower(s: Seq<char>) -> Seq<char> {
    s.map_values(|c: char| lower_char(c))
}

fn lower_char_exec(c: char) -> (r: char)
    ensures
        r == lower_char(c),
{
    if 'A' <= c && c <= 'Z' {
        let b: u8 = (c as u8) + 32;
        b as char
    } else {
        c
    }
}

/// Lower-casing keeps the length, turns each of 'A'..='Z' into the letter
/// 32 code points on (its lower-case form), and leaves every other
/// character as it is.
pub proof fn lemma_ascii_lower(s: Seq<char>)
    ensures
        ascii_lower(s).len() == s.len(),
        forall|i: int|
            0 <= i < s.len() ==> if 'A' <= #[trigger] s[i] && s[i] <= 'Z' {
                ascii_lower(s)[i] as u32 == (s[i] as u32) + 32 && 'a' <= ascii_lower(s)[i]
                    && ascii_lower(s)[i] <= 'z'
            } else {
                ascii_lower(s)[i] == s[i]
            },
{
    assert forall|i: int| 0 <= i < s.len() && 'A' <= #[trigger] s[i] && s[i] <= 'Z' implies ascii_lower(s)[i] as u32
        == (s[i] as u32) + 32 && 'a' <= ascii_lower(s)[i] && ascii_lower(s)[i] <= 'z' by {
        let u: u32 = ((s[i] as u32) + 32) as u32;
        assert(vstd::utf8::is_scalar(u));
        assert((u as char) as u32 == u);
    }
}

/// Lower-casing twice is lower-casing once.
pub proof fn lemma_ascii_lower_idempotent(s: Seq<char>)
    ensures
        ascii_lower(ascii_lower(s)) == ascii_lower(s),
{
    assert forall|i: int| 0 <= i < s.len() implies lower_char(#[trigger] lower_char(s[i]))
        == lower_char(s[i]) by {
        let c = s[i];
        if 'A' <= c && c <= 'Z' {
            let u: u32 = ((c as u32) + 32) as u32;
            assert(vstd::utf8::is_scalar(u));
            assert((u as char) as u32 == u);
        }
    }
    assert(ascii_lower(ascii_lower(s)) =~= ascii_lower(s));
}

/// Appends the ASCII lower-casing of `t` to `s`.
pub fn push_lowercase(s: &mut String, t: &str)
    ensures
        final(s)@ == old(s)@ + ascii_lower(t@),
{
    let v = chars_of(t);
    let ghost start = s@;
    let mut i: usize = 0;
    while i < v.len()
        invariant
            i <= v.len(),
            v@ == t@,
            s@ == start + ascii_lower(v@.take(i as int)),
        decreases v.len() - i,
    {
        push_char(s, lower_char_exec(v[i]));
        i = i + 1;
        assert(ascii_lower(v@.take(i as int)) =~= ascii_lower(v@.take(i - 1)).push(
            lower_char(v@[i - 1]),
        ));
    }
    assert(v@.take(v.len() as int) =~= v@);
}

/// The ASCII lower-casing of `t`.
pub fn to_ascii_lowercase(t: &str) -> (s: String)
    ensures
        s@ == ascii_lower(t@),
{
    let mut s = String::new();
    push_lowercase(&mut s, t);
    assert(s@ =~= ascii_lower(t@));
    s
}

// ---------------------------------------------------------------------------
// Decimal numbers
// ---------------------------------------------------------------------------

/// The character of the decimal digit `d`.
pub open spec fn digit_char(d: nat) -> char {
    ((d + 48) as u32) as char
}

/// The decimal representation of `n`, without sign or leading zeros.
pub open spec fn decimal(n: nat) -> Seq<char>
    decreases n,
{
    if n < 10 {
        seq![digit_char(n)]
    } else {
        decimal(n / 10).push(digit_char(n % 10))
    }
}

fn digit_char_exec(d: usize) -> (c: char)
    requires
        d < 10,
    ensures
        c == digit_char(d as nat),
{
    let b: u8 = (d as u8) + 48;
    b as char
}

/// Appends the decimal representation of `n` to `s`.
pub fn push_decimal(s: &mut String, n: usize)
    ensures
        final(s)@ == old(s)@ + decimal(n as nat),
    decreases n,
{
    if n < 10 {
        push_char(s, digit_char_exec(n));
        assert(s@ =~= old(s)@ + decimal(n as nat));
    } else {
        push_decimal(s, n / 10);
        push_char(s, digit_char_exec(n % 10));
        assert(s@ =~= old(s)@ + decimal(n as nat));
    }
}

/// The decimal representation of `n` (what `n.to_string()` gives).
pub fn decimal_string(n: usize) -> (s: String)
    ensures
        s@ == decimal(n as nat),
{
    let mut s = String::new();
    push_decimal(&mut s, n);
    assert(s@ =~= decimal(n as nat));
    s
}

/// Whether `c` is an ASCII decimal digit.
pub open spec fn is_digit(c: char) -> bool {
    '0' <= c && c <= '9'
}

pub open spec fn digit_value(c: char) -> nat {
    ((c as u32) - 48) as nat
}

/// The number that a string of decimal digits denotes.
pub open spec fn digits_value(s: Seq<char>) -> nat
    decreases s.len(),
{
    if s.len() == 0 {
        0
    } else {
        digits_value(s.drop_last()) * 10 + digit_value(s.last())
    }
}

/// The digits after an optional leading '+'.
pub open spec fn unsigned_digits(s: Seq<char>) -> Seq<char> {
    if s.len() > 0 && s[0] == '+' {
        s.drop_first()
    } else {
        s
    }
}

/// What `s.parse::<usize>()` gives: an optional '+' then at least one ASCII
/// digit and nothing else, denoting a number that fits in a `usize`.
pub open spec fn parse_usize(s: Seq<char>) -> Option<usize> {
    let d = unsigned_digits(s);
    if d.len() > 0 && (forall|i: int| 0 <= i < d.len() ==> is_digit(#[trigger] d[i]))
        && digits_value(d) <= usize::MAX {
        Some(digits_value(d) as usize)
    } else {
        None
    }
}

proof fn lemma_digits_value_prefix(s: Seq<char>, k: int)
    requires
        0 <= k <= s.len(),
        forall|i: int| 0 <= i < s.len() ==> is_digit(#[trigger] s[i]),
    ensures
        digits_value(s.take(k)) <= digits_value(s),
    decreases s.len() - k,
{
    if k < s.len() {
        lemma_digits_value_prefix(s, k + 1);
        assert(s.take(k + 1).drop_last() =~= s.take(k));
        assert(digits_value(s.take(k + 1)) == digits_value(s.take(k)) * 10 + digit_value(
            s[k],
        ));
    } else {
        assert(s.take(k) =~= s);
    }
}

/// Parses `v[a..b]` as a `usize`, as `str::parse::<usize>` does.
pub fn parse_usize_chars(v: &Vec<char>, a: usize, b: usize) -> (r: Option<usize>)
    requires
        a <= b <= v.len(),
    ensures
        r == parse_usize(v@.subrange(a as int, b as int)),
{
    let ghost s = v@.subrange(a as int, b as int);
    let mut start = a;
    if a < b && v[a] == '+' {
        start = a + 1;
    }
    let ghost d = v@.subrange(start as int, b as int);
    assert(unsigned_digits(s) =~= d);
    if start == b {
        return None;
    }
    let mut acc: usize = 0;
    let mut i = start;
    while i < b
        invariant
            a <= start < b <= v.len(),
            start <= i <= b,
            d == v@.subrange(start as int, b as int),
            unsigned_digits(v@.subrange(a as int, b as int)) == d,
            forall|j: int| 0 <= j < i - start ==> is_digit(#[trigger] d[j]),
            acc == digits_value(d.take(i - start)),
        decreases b - i,
    {
        let c = v[i];
        if !('0' <= c && c <= '9') {
            assert(!is_digit(d[i - start]));
            return None;
        }
        let dv: usize = ((c as u32) - 48) as usize;
        assert(c == d[i - start]);
        assert(d.take(i + 1 - start).drop_last() =~= d.take(i - start));
        assert(digits_value(d.take(i + 1 - start)) == acc * 10 + dv);
        match acc.checked_mul(10) {
            Some(m) => match m.checked_add(dv) {
                Some(next) => {
                    acc = next;
                },
                None => {
                    proof {
                        self::lemma_overflow_stays(d, i + 1 - start);
                    }
                    return None;
                },
            },
            None => {
                proof {
                    assert(digits_value(d.take(i + 1 - start)) >= acc * 10);
                    self::lemma_overflow_stays(d, i + 1 - start);
                }
                return None;
            },
        }
        i = i + 1;
    }
    assert(d.take(b - start) =~= d);
    Some(acc)
}

/// Once a prefix of digits denotes more than `usize::MAX`, the whole does,
/// or some later character is not a digit.
proof fn lemma_overflow_stays(d: Seq<char>, k: int)
    requires
        0 <= k <= d.len(),
        digits_value(d.take(k)) > usize::MAX,
    ensures
        parse_usize_digits_fail(d),
{
    if forall|i: int| 0 <= i < d.len() ==> is_digit(#[trigger] d[i]) {
        lemma_digits_value_prefix(d, k);
    }
}

/// Either some character is not a digit or the value exceeds `usize::MAX`.
pub open spec fn parse_usize_digits_fail(d: Seq<char>) -> bool {
    !(forall|i: int| 0 <= i < d.len() ==> is_digit(#[trigger] d[i])) || digits_value(d)
        > usize::MAX
}

/// A text reads as a number only when it is a non-empty run of ASCII
/// digits after at most one leading '+': no sign '-', no whitespace, no
/// other character anywhere.
pub proof fn lemma_parse_usize_form(s: Seq<char>)
    ensures
        parse_usize(s) is Some ==> {
            &&& s.len() > 0
            &&& (s[0] == '+' ==> s.len() > 1)
            &&& forall|i: int| 0 <= i < s.len() ==> (is_digit(#[trigger] s[i]) || (i == 0 && s[i] == '+'))
        },
{
    if parse_usize(s) is Some {
        let d = unsigned_digits(s);
        assert forall|i: int| 0 <= i < s.len() implies (is_digit(#[trigger] s[i]) || (i == 0 && s[i]
            == '+')) by {
            if s[0] == '+' {
                if i > 0 {
                    assert(s[i] == d[i - 1]);
                }
            } else {
                assert(s[i] == d[i]);
            }
        }
    }
}

/// Reading back the decimal representation of a number gives the number.
pub proof fn lemma_parse_decimal(n: usize)
    ensures
        parse_usize(decimal(n as nat)) == Some(n),
{
    lemma_decimal_digits(n as nat);
}

/// A decimal representation is a non-empty run of digits.
pub proof fn lemma_decimal_digits(n: nat)
    ensures
        decimal(n).len() > 0,
        forall|i: int| 0 <= i < decimal(n).len() ==> is_digit(#[trigger] decimal(n)[i]),
        digits_value(decimal(n)) == n,
        decimal(n)[0] != '+',
    decreases n,
{
    lemma_digit_char(n % 10);
    if n < 10 {
        assert(n % 10 == n);
        assert(decimal(n).drop_last() =~= Seq::<char>::empty());
        assert(digits_value(Seq::<char>::empty()) == 0);
        assert(digits_value(decimal(n)) == digits_value(decimal(n).drop_last()) * 10
            + digit_value(decimal(n).last()));
    } else {
        lemma_decimal_digits(n / 10);
        assert(decimal(n).drop_last() =~= decimal(n / 10));
        assert(n == (n / 10) * 10 + n % 10);
        assert(digits_value(decimal(n)) == digits_value(decimal(n).drop_last()) * 10
            + digit_value(decimal(n).last()));
    }
}

proof fn lemma_digit_char(k: nat)
    requires
        k < 10,
    ensures
        is_digit(digit_char(k)),
        digit_value(digit_char(k)) == k,
        digit_char(k) != '+',
{
    let u: u32 = (k + 48) as u32;
    assert(vstd::utf8::is_scalar(u));
    assert((u as char) as u32 == u);
}

// ---------------------------------------------------------------------------
// Replacing
// ---------------------------------------------------------------------------

/// `s` with every non-overlapping occurrence of `pat`, taken from the left,
/// replaced by `rep` (what `str::replace` gives). An empty pattern occurs
/// before every character and at the end.
pub open spec fn replace_all(s: Seq<char>, pat: Seq<char>, rep: Seq<char>) -> Seq<char>
    decreases s.len(),
{
    if pat.len() == 0 {
        if s.len() == 0 {
            rep
        } else {
            rep + seq![s[0]] + replace_all(s.drop_first(), pat, rep)
        }
    } else if s.len() == 0 {
        s
    } else if pat.len() <= s.len() && s.take(pat.len() as int) == pat {
        rep + replace_all(s.skip(pat.len() as int), pat, rep)
    } else {
        seq![s[0]] + replace_all(s.drop_first(), pat, rep)
    }
}

/// Replacing in a text that starts with the (non-empty) pattern puts the
/// replacement first and goes on after the pattern.
pub proof fn lemma_replace_all_prefix(pat: Seq<char>, t: Seq<char>, rep: Seq<char>)
    requires
        pat.len() > 0,
    ensures
        replace_all(pat + t, pat, rep) == rep + replace_all(t, pat, rep),
{
    assert((pat + t).take(pat.len() as int) =~= pat);
    assert((pat + t).skip(pat.len() as int) =~= t);
}

/// Replacing a (non-empty) pattern that does not occur leaves the text as
/// it is.
pub proof fn lemma_replace_all_absent(t: Seq<char>, pat: Seq<char>, rep: Seq<char>)
    requires
        pat.len() > 0,
        forall|i: int| 0 <= i && i + pat.len() <= t.len() ==> #[trigger] t.subrange(i, i + pat.len()) != pat,
    ensures
        replace_all(t, pat, rep) == t,
    decreases t.len(),
{
    if t.len() > 0 {
        if pat.len() <= t.len() {
            assert(t.take(pat.len() as int) =~= t.subrange(0, pat.len() as int));
            assert(t.subrange(0int, 0int + pat.len()) != pat);
            assert(t.take(pat.len() as int) != pat);
        }
        let u = t.drop_first();
        assert forall|i: int| 0 <= i && i + pat.len() <= u.len() implies #[trigger] u.subrange(i, i + pat.len()) != pat by {
            assert(u.subrange(i, i + pat.len()) =~= t.subrange(i + 1, i + 1 + pat.len()));
        }
        lemma_replace_all_absent(u, pat, rep);
        assert(seq![t[0]] + u =~= t);
    }
}

/// Whether `v[i..]` starts with `p`.
fn starts_with_at(v: &Vec<char>, i: usize, p: &Vec<char>) -> (r: bool)
    requires
        i <= v.len(),
    ensures
        r == (p.len() <= v.len() - i && v@.skip(i as int).take(p.len() as int) == p@),
{
    if p.len() > v.len() - i {
        return false;
    }
    let mut k: usize = 0;
    while k < p.len()
        invariant
            i + p.len() <= v.len(),
            k <= p.len(),
            forall|j: int| 0 <= j < k ==> v@[i + j] == p@[j],
        decreases p.len() - k,
    {
        if v[i + k] != p[k] {
            assert(v@.skip(i as int).take(p.len() as int)[k as int] != p@[k as int]);
            return false;
        }
        k = k + 1;
    }
    assert(v@.skip(i as int).take(p.len() as int) =~= p@);
    true
}

/// `s` with every occurrence of `pat` replaced by `rep`.
pub fn replace(s: &str, pat: &str, rep: &str) -> (r: String)
    ensures
        r@ == replace_all(s@, pat@, rep@),
{
    let v = chars_of(s);
    let p = chars_of(pat);
    let mut r = String::new();
    let mut i: usize = 0;
    assert(v@.skip(0) =~= v@);
    assert(r@ + replace_all(s@, pat@, rep@) =~= replace_all(s@, pat@, rep@));
    while i < v.len()
        invariant
            i <= v.len(),
            v@ == s@,
            p@ == pat@,
            replace_all(s@, pat@, rep@) == r@ + replace_all(v@.skip(i as int), pat@, rep@),
        decreases v.len() - i,
    {
        let ghost rest = v@.skip(i as int);
        if p.len() == 0 {
            r.append(rep);
            push_char(&mut r, v[i]);
            assert(rest.drop_first() =~= v@.skip(i + 1));
            i = i + 1;
        } else if starts_with_at(&v, i, &p) {
            r.append(rep);
            assert(rest.skip(p.len() as int) =~= v@.skip(i + p.len()));
            i = i + p.len();
        } else {
            push_char(&mut r, v[i]);
            assert(rest.drop_first() =~= v@.skip(i + 1));
            i = i + 1;
        }
        assert(replace_all(s@, pat@, rep@) =~= r@ + replace_all(v@.skip(i as int), pat@, rep@));
    }
    assert(v@.skip(i as int) =~= Seq::<char>::empty());
    if p.len() == 0 {
        r.append(rep);
    } else {
        assert(r@ + Seq::<char>::empty() =~= r@);
    }
    r
}

} // verus!
