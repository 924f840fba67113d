//! Character-level text utilities shared by the operand parser, the unit
//! parsers and the source loader.  All of them work on `Vec<char>` / `&str`
//! values whose mathematical model is a `Seq<char>`.

use vstd::prelude::*;

verus! {

/// Relies on `alloc::string::String::push`: appends the given character to
/// the end of the string.
#[verifier::external_body]
pub fn push_char(s: &mut String, c: char)
    ensures
        final(s)@ == old(s)@.push(c),
{
    s.push(c);
}

/// The whitespace characters of the source grammar: the blank and the ASCII
/// control characters from horizontal tab to carriage return.
pub open spec fn is_space(c: char) -> bool {
    c == ' ' || (9 <= c as u32 && c as u32 <= 13)
}

pub fn space_char(c: char) -> (b: bool)
    ensures
        b == is_space(c),
{
    c == ' ' || (9 <= c as u32 && c as u32 <= 13)
}

/// The characters of a string, in order.
#[verifier::loop_isolation(false)]
pub fn chars_of(s: &str) -> (v: Vec<char>)
    ensures
        v@ == s@,
{
    let n = s.unicode_len();
    let mut v: Vec<char> = Vec::new();
    let mut i: usize = 0;
    while i < n
        invariant
            i <= n,
            n == s@.len(),
            v@ == s@.take(i as int),
        decreases n - i,
    {
        let c = s.get_char(i);
        v.push(c);
        proof {
            assert(s@.take(i + 1 as int) =~= s@.take(i as int).push(s@[i as int]));
        }
        i = i + 1;
    }
    proof {
        assert(s@.take(n as int) =~= s@);
    }
    v
}

/// A string holding exactly the given characters.
#[verifier::loop_isolation(false)]
pub fn string_of(v: &Vec<char>) -> (s: String)
    ensures
        s@ == v@,
{
    let mut s = String::new();
    let mut i: usize = 0;
    while i < v.len()
        invariant
            i <= v.len(),
            s@ == v@.take(i as int),
        decreases v.len() - i,
    {
        push_char(&mut s, v[i]);
        proof {
            assert(v@.take(i + 1 as int) =~= v@.take(i as int).push(v@[i as int]));
        }
        i = i + 1;
    }
    proof {
        assert(v@.take(v.len() as int) =~= v@);
    }
    s
}

/// The string with its leading whitespace removed.
pub open spec fn trim_start_spec(s: Seq<char>) -> Seq<char>
    decreases s.len(),
{
    if s.len() > 0 && is_space(s[0]) {
        trim_start_spec(s.drop_first())
    } else {
        s
    }
}

/// The string with its trailing whitespace removed.
pub open spec fn trim_end_spec(s: Seq<char>) -> Seq<char>
    decreases s.len(),
{
    if s.len() > 0 && is_space(s.last()) {
        trim_end_spec(s.drop_last())
    } else {
        s
    }
}

/// The string with both leading and trailing whitespace removed.
pub open spec fn trim_spec(s: Seq<char>) -> Seq<char> {
    trim_end_spec(trim_start_spec(s))
}

/// The position right after the leading whitespace of `v@.skip(i)`.
#[verifier::loop_isolation(false)]
pub fn skip_spaces(v: &Vec<char>, i: usize) -> (j: usize)
    requires
        i <= v@.len(),
    ensures
        i <= j <= v@.len(),
        trim_start_spec(v@.skip(i as int)) == v@.skip(j as int),
        j < v@.len() ==> !is_space(v@[j as int]),
    decreases v@.len() - i,
{
    let mut j: usize = i;
    while j < v.len() && space_char(v[j])
        invariant
            i <= j <= v@.len(),
            trim_start_spec(v@.skip(i as int)) == trim_start_spec(v@.skip(j as int)),
        decreases v@.len() - j,
    {
        proof {
            assert(v@.skip(j as int).drop_first() =~= v@.skip(j + 1 as int));
        }
        j = j + 1;
    }
    j
}

/// The position right after the trailing whitespace of `v@.subrange(i, j)`.
#[verifier::loop_isolation(false)]
pub fn rskip_spaces(v: &Vec<char>, i: usize, j: usize) -> (k: usize)
    requires
        i <= j <= v@.len(),
    ensures
        i <= k <= j,
        trim_end_spec(v@.subrange(i as int, j as int)) == v@.subrange(i as int, k as int),
    decreases j - i,
{
    let mut k: usize = j;
    while k > i && space_char(v[k - 1])
        invariant
            i <= k <= j,
            trim_end_spec(v@.subrange(i as int, j as int)) == trim_end_spec(
                v@.subrange(i as int, k as int),
            ),
        decreases k - i,
    {
        proof {
            assert(v@.subrange(i as int, k as int).drop_last() =~= v@.subrange(
                i as int,
                k - 1 as int,
            ));
        }
        k = k - 1;
    }
    k
}

/// The trimmed copy of `v@.subrange(i, j)`.
#[verifier::loop_isolation(false)]
pub fn trim_range(v: &Vec<char>, i: usize, j: usize) -> (r: Vec<char>)
    requires
        i <= j <= v@.len(),
    ensures
        r@ == trim_spec(v@.subrange(i as int, j as int)),
{
    let a = skip_spaces_to(v, i, j);
    let b = rskip_spaces(v, a, j);
    let mut r: Vec<char> = Vec::new();
    let mut k: usize = a;
    while k < b
        invariant
            a <= k <= b <= v@.len(),
            r@ == v@.subrange(a as int, k as int),
        decreases b - k,
    {
        r.push(v[k]);
        proof {
            assert(v@.subrange(a as int, k + 1 as int) =~= v@.subrange(a as int, k as int).push(
                v@[k as int],
            ));
        }
        k = k + 1;
    }
    proof {
        assert(r@ =~= v@.subrange(a as int, b as int));
    }
    r
}

/// The position right after the leading whitespace of `v@.subrange(i, j)`.
#[verifier::loop_isolation(false)]
pub fn skip_spaces_to(v: &Vec<char>, i: usize, j: usize) -> (k: usize)
    requires
        i <= j <= v@.len(),
    ensures
        i <= k <= j,
        trim_start_spec(v@.subrange(i as int, j as int)) == v@.subrange(k as int, j as int),
        k < j ==> !is_space(v@[k as int]),
    decreases j - i,
{
    let mut k: usize = i;
    while k < j && space_char(v[k])
        invariant
            i <= k <= j,
            trim_start_spec(v@.subrange(i as int, j as int)) == trim_start_spec(
                v@.subrange(k as int, j as int),
            ),
        decreases j - k,
    {
        proof {
            assert(v@.subrange(k as int, j as int).drop_first() =~= v@.subrange(
                k + 1 as int,
                j as int,
            ));
        }
        k = k + 1;
    }
    k
}

/// The trimmed copy of the whole vector.
pub fn trim_chars(v: &Vec<char>) -> (r: Vec<char>)
    ensures
        r@ == trim_spec(v@),
{
    proof {
        assert(v@.subrange(0, v@.len() as int) =~= v@);
    }
    trim_range(v, 0, v.len())
}

/// The maximal run of non-whitespace characters at the head of the string.
pub open spec fn take_token(s: Seq<char>) -> Seq<char>
    decreases s.len(),
{
    if s.len() > 0 && !is_space(s[0]) {
        seq![s[0]] + take_token(s.drop_first())
    } else {
        Seq::empty()
    }
}

/// What follows the maximal run of non-whitespace characters at the head.
pub open spec fn skip_token(s: Seq<char>) -> Seq<char>
    decreases s.len(),
{
    if s.len() > 0 && !is_space(s[0]) {
        skip_token(s.drop_first())
    } else {
        s
    }
}

/// The first whitespace-delimited token of the string.
pub open spec fn first_token(s: Seq<char>) -> Seq<char> {
    take_token(trim_start_spec(s))
}

/// What remains after the first whitespace-delimited token.
pub open spec fn rest_after_token(s: Seq<char>) -> Seq<char> {
    skip_token(trim_start_spec(s))
}

/// The position right after the token starting at `i`.
#[verifier::loop_isolation(false)]
pub fn token_end(v: &Vec<char>, i: usize) -> (j: usize)
    requires
        i <= v@.len(),
    ensures
        i <= j <= v@.len(),
        take_token(v@.skip(i as int)) == v@.subrange(i as int, j as int),
        skip_token(v@.skip(i as int)) == v@.skip(j as int),
    decreases v@.len() - i,
{
    let mut j: usize = i;
    while j < v.len() && !space_char(v[j])
        invariant
            i <= j <= v@.len(),
            take_token(v@.skip(i as int)) == v@.subrange(i as int, j as int) + take_token(
                v@.skip(j as int),
            ),
            skip_token(v@.skip(i as int)) == skip_token(v@.skip(j as int)),
        decreases v@.len() - j,
    {
        proof {
            assert(v@.skip(j as int).drop_first() =~= v@.skip(j + 1 as int));
            assert(v@.subrange(i as int, j as int).push(v@[j as int]) =~= v@.subrange(
                i as int,
                j + 1 as int,
            ));
            assert(v@.subrange(i as int, j as int) + seq![v@[j as int]] =~= v@.subrange(
                i as int,
                j + 1 as int,
            ));
        }
        j = j + 1;
    }
    proof {
        assert(take_token(v@.skip(j as int)) =~= Seq::<char>::empty());
        assert(v@.subrange(i as int, j as int) + Seq::<char>::empty() =~= v@.subrange(
            i as int,
            j as int,
        ));
    }
    j
}

/// Everything before the first occurrence of the given character, or the
/// whole string.
pub open spec fn before_char(s: Seq<char>, c: char) -> Seq<char>
    decreases s.len(),
{
    if s.len() == 0 {
        s
    } else if s[0] == c {
        Seq::empty()
    } else {
        seq![s[0]] + before_char(s.drop_first(), c)
    }
}

/// Everything after the first occurrence of the given character; empty when
/// the character does not occur.
pub open spec fn after_char(s: Seq<char>, c: char) -> Seq<char>
    decreases s.len(),
{
    if s.len() == 0 {
        s
    } else if s[0] == c {
        s.drop_first()
    } else {
        after_char(s.drop_first(), c)
    }
}

/// The position of the first occurrence of the given character.
#[verifier::loop_isolation(false)]
pub fn find_char(v: &Vec<char>, c: char) -> (r: Option<usize>)
    ensures
        match r {
            Some(e) => e < v@.len() && v@[e as int] == c && (forall|j: int|
                0 <= j < e ==> v@[j] != c) && before_char(v@, c) == v@.subrange(0, e as int)
                && after_char(v@, c) == v@.skip(e + 1),
            None => !contains_char(v@, c) && before_char(v@, c) == v@,
        },
{
    let mut e: usize = 0;
    proof {
        assert(v@.skip(0) =~= v@);
    }
    while e < v.len()
        invariant
            e <= v@.len(),
            forall|j: int| 0 <= j < e ==> v@[j] != c,
            before_char(v@, c) == v@.subrange(0, e as int) + before_char(v@.skip(e as int), c),
            after_char(v@, c) == after_char(v@.skip(e as int), c),
        decreases v@.len() - e,
    {
        proof {
            assert(v@.skip(e as int).drop_first() =~= v@.skip(e + 1));
        }
        if v[e] == c {
            proof {
                assert(before_char(v@.skip(e as int), c) =~= Seq::<char>::empty());
                assert(v@.subrange(0, e as int) + Seq::<char>::empty() =~= v@.subrange(
                    0,
                    e as int,
                ));
            }
            return Some(e);
        }
        proof {
            assert(v@.subrange(0, e as int).push(v@[e as int]) =~= v@.subrange(0, e + 1));
            assert(v@.subrange(0, e as int) + (seq![v@[e as int]] + before_char(
                v@.skip(e + 1),
                c,
            )) =~= v@.subrange(0, e + 1) + before_char(v@.skip(e + 1), c));
        }
        e = e + 1;
    }
    proof {
        assert(before_char(v@.skip(v@.len() as int), c) =~= Seq::<char>::empty());
        assert(v@.subrange(0, v@.len() as int) + Seq::<char>::empty() =~= v@);
    }
    None
}

/// The string with every occurrence of the given character removed.
pub open spec fn remove_char(s: Seq<char>, c: char) -> Seq<char>
    decreases s.len(),
{
    if s.len() == 0 {
        s
    } else if s[0] == c {
        remove_char(s.drop_first(), c)
    } else {
        seq![s[0]] + remove_char(s.drop_first(), c)
    }
}

#[verifier::loop_isolation(false)]
pub fn remove_char_exec(v: &Vec<char>, c: char) -> (r: Vec<char>)
    ensures
        r@ == remove_char(v@, c),
{
    let mut r: Vec<char> = Vec::new();
    let mut i: usize = 0;
    proof {
        assert(v@.skip(0) =~= v@);
        assert(Seq::<char>::empty() + remove_char(v@, c) =~= remove_char(v@, c));
    }
    while i < v.len()
        invariant
            i <= v@.len(),
            remove_char(v@, c) == r@ + remove_char(v@.skip(i as int), c),
        decreases v@.len() - i,
    {
        proof {
            assert(v@.skip(i as int).drop_first() =~= v@.skip(i + 1 as int));
        }
        let ghost r0 = r@;
        if v[i] != c {
            r.push(v[i]);
            proof {
                assert(remove_char(v@.skip(i as int), c) == seq![v@[i as int]] + remove_char(
                    v@.skip(i + 1 as int),
                    c,
                ));
                assert(r0 + (seq![v@[i as int]] + remove_char(v@.skip(i + 1 as int), c)) =~= r@
                    + remove_char(v@.skip(i + 1 as int), c));
            }
        }
        i = i + 1;
    }
    proof {
        assert(v@.skip(v@.len() as int) =~= Seq::<char>::empty());
        assert(r@ + Seq::<char>::empty() =~= r@);
    }
    r
}

/// Whether the string holds the given character anywhere.
pub open spec fn contains_char(s: Seq<char>, c: char) -> bool {
    exists|i: int| 0 <= i < s.len() && s[i] == c
}

#[verifier::loop_isolation(false)]
pub fn contains_char_exec(v: &Vec<char>, c: char) -> (b: bool)
    ensures
        b == contains_char(v@, c),
{
    let mut i: usize = 0;
    while i < v.len()
        invariant
            i <= v@.len(),
            forall|j: int| 0 <= j < i ==> v@[j] != c,
        decreases v@.len() - i,
    {
        if v[i] == c {
            return true;
        }
        i = i + 1;
    }
    false
}

/// An upper-case letter mapped to lower case; anything else unchanged.
pub open spec fn lower_char(c: char) -> char {
    if 'A' as u32 <= c as u32 && c as u32 <= 'Z' as u32 {
        ((c as u32 + 32) as u8) as char
    } else {
        c
    }
}

/// A lower-case letter mapped to upper case; anything else unchanged.
pub open spec fn upper_char(c: char) -> char {
    if 'a' as u32 <= c as u32 && c as u32 <= 'z' as u32 {
        ((c as u32 - 32) as u8) as char
    } else {
        c
    }
}

/// The string with its letters mapped to lower case.
pub open spec fn to_lower(s: Seq<char>) -> Seq<char> {
    s.map_values(|c: char| lower_char(c))
}

/// The string with its letters mapped to upper case.
pub open spec fn to_upper(s: Seq<char>) -> Seq<char> {
    s.map_values(|c: char| upper_char(c))
}

pub fn lower_char_exec(c: char) -> (r: char)
    ensures
        r == lower_char(c),
{
    if 'A' as u32 <= c as u32 && c as u32 <= 'Z' as u32 {
        ((c as u32 + 32) as u8) as char
    } else {
        c
    }
}

pub fn upper_char_exec(c: char) -> (r: char)
    ensures
        r == upper_char(c),
{
    if 'a' as u32 <= c as u32 && c as u32 <= 'z' as u32 {
        ((c as u32 - 32) as u8) as char
    } else {
        c
    }
}

/// The lower-case copy of a string.
#[verifier::loop_isolation(false)]
pub fn to_lower_string(s: &String) -> (r: String)
    ensures
        r@ == to_lower(s@),
{
    let v = chars_of(s.as_str());
    let mut out: Vec<char> = Vec::new();
    let mut i: usize = 0;
    while i < v.len()
        invariant
            i <= v@.len(),
            v@ == s@,
            out@ == to_lower(s@.take(i as int)),
        decreases v@.len() - i,
    {
        out.push(lower_char_exec(v[i]));
        proof {
            assert(to_lower(s@.take(i + 1 as int)) =~= to_lower(s@.take(i as int)).push(
                lower_char(s@[i as int]),
            ));
        }
        i = i + 1;
    }
    proof {
        assert(to_lower(s@.take(s@.len() as int)) =~= to_lower(s@));
    }
    string_of(&out)
}

/// The upper-case copy of a string.
#[verifier::loop_isolation(false)]
pub fn to_upper_string(s: &String) -> (r: String)
    ensures
        r@ == to_upper(s@),
{
    let v = chars_of(s.as_str());
    let mut out: Vec<char> = Vec::new();
    let mut i: usize = 0;
    while i < v.len()
        invariant
            i <= v@.len(),
            v@ == s@,
            out@ == to_upper(s@.take(i as int)),
        decreases v@.len() - i,
    {
        out.push(upper_char_exec(v[i]));
        proof {
            assert(to_upper(s@.take(i + 1 as int)) =~= to_upper(s@.take(i as int)).push(
                upper_char(s@[i as int]),
            ));
        }
        i = i + 1;
    }
    proof {
        assert(to_upper(s@.take(s@.len() as int)) =~= to_upper(s@));
    }
    string_of(&out)
}

} // verus!
