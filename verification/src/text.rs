//! Small verified text utilities: string equality, ASCII upper-casing,
//! decimal rendering, and entry-name normalization.

use vstd::prelude::*;
use vstd::string::StrSliceExecFns;
use vstd::string::StringExecFns;

verus! {

/// Whether two string slices hold the same characters.
pub fn str_eq(a: &str, b: &str) -> (r: bool)
    ensures
        r == (a@ == b@),
{
    let an = a.unicode_len();
    let bn = b.unicode_len();
    if an != bn {
        return false;
    }
    let mut i: usize = 0;
    while i < an
        invariant
            an == a@.len(),
            an == b@.len(),
            i <= an,
            forall|k: int| 0 <= k < i ==> a@[k] == b@[k],
        decreases an - i,
    {
        if a.get_char(i) != b.get_char(i) {
            return false;
        }
        i = i + 1;
    }
    proof {
        assert(a@ =~= b@);
    }
    true
}

/// Relies on `String::push`: appends exactly the one character `c` to `s`.
#[verifier::external_body]
pub fn push_char(s: &mut String, c: char)
    ensures
        final(s)@ == old(s)@.push(c),
{
    s.push(c);
}

/// The ASCII upper-case form of one character: the letters `a` through `z`
/// map to `A` through `Z`, every other character is unchanged.
pub open spec fn upper_char(c: char) -> char {
    match c {
        'a' => 'A',
        'b' => 'B',
        'c' => 'C',
        'd' => 'D',
        'e' => 'E',
        'f' => 'F',
        'g' => 'G',
        'h' => 'H',
        'i' => 'I',
        'j' => 'J',
        'k' => 'K',
        'l' => 'L',
        'm' => 'M',
        'n' => 'N',
        'o' => 'O',
        'p' => 'P',
        'q' => 'Q',
        'r' => 'R',
        's' => 'S',
        't' => 'T',
        'u' => 'U',
        'v' => 'V',
        'w' => 'W',
        'x' => 'X',
        'y' => 'Y',
        'z' => 'Z',
        _ => c,
    }
}

/// A whole string mapped through [`upper_char`].
pub open spec fn upper_str(s: Seq<char>) -> Seq<char> {
    s.map_values(|c: char| upper_char(c))
}

/// The ASCII upper-case form of one character.
pub fn upper_char_exec(c: char) -> (r: char)
    ensures
        r == upper_char(c),
{
    match c {
        'a' => 'A',
        'b' => 'B',
        'c' => 'C',
        'd' => 'D',
        'e' => 'E',
        'f' => 'F',
        'g' => 'G',
        'h' => 'H',
        'i' => 'I',
        'j' => 'J',
        'k' => 'K',
        'l' => 'L',
        'm' => 'M',
        'n' => 'N',
        'o' => 'O',
        'p' => 'P',
        'q' => 'Q',
        'r' => 'R',
        's' => 'S',
        't' => 'T',
        'u' => 'U',
        'v' => 'V',
        'w' => 'W',
        'x' => 'X',
        'y' => 'Y',
        'z' => 'Z',
        _ => c,
    }
}

/// The ASCII upper-case form of a whole string.
pub fn to_ascii_upper(s: &str) -> (r: String)
    ensures
        r@ == upper_str(s@),
{
    let n = s.unicode_len();
    let mut r = String::new();
    let mut i: usize = 0;
    while i < n
        invariant
            n == s@.len(),
            i <= n,
            r@ == upper_str(s@.take(i as int)),
        decreases n - i,
    {
        let c = s.get_char(i);
        push_char(&mut r, upper_char_exec(c));
        proof {
            assert(upper_str(s@.take(i + 1 as int)) =~= upper_str(s@.take(i as int)).push(
                upper_char(s@[i as int]),
            ));
        }
        i = i + 1;
    }
    proof {
        assert(s@.take(n as int) =~= s@);
    }
    r
}

/// The decimal digit character of `d`.
pub open spec fn digit_char(d: nat) -> char {
    if d == 0 {
        '0'
    } else if d == 1 {
        '1'
    } else if d == 2 {
        '2'
    } else if d == 3 {
        '3'
    } else if d == 4 {
        '4'
    } else if d == 5 {
        '5'
    } else if d == 6 {
        '6'
    } else if d == 7 {
        '7'
    } else if d == 8 {
        '8'
    } else {
        '9'
    }
}

/// The decimal rendering of `n`, most significant digit first, no sign and
/// no leading zero except for `n == 0` itself.
pub open spec fn dec_str(n: nat) -> Seq<char>
    decreases n,
{
    if n < 10 {
        seq![digit_char(n)]
    } else {
        dec_str(n / 10).push(digit_char(n % 10))
    }
}

/// The decimal digit character of `d`.
pub fn digit_char_exec(d: u64) -> (c: char)
    requires
        d < 10,
    ensures
        c == digit_char(d as nat),
{
    match d {
        0 => '0',
        1 => '1',
        2 => '2',
        3 => '3',
        4 => '4',
        5 => '5',
        6 => '6',
        7 => '7',
        8 => '8',
        _ => '9',
    }
}

/// Render `n` in decimal.
pub fn u64_to_dec(n: u64) -> (r: String)
    ensures
        r@ == dec_str(n as nat),
    decreases n,
{
    if n < 10 {
        let mut r = String::new();
        push_char(&mut r, digit_char_exec(n));
        proof {
            assert(r@ =~= dec_str(n as nat));
        }
        r
    } else {
        let mut r = u64_to_dec(n / 10);
        push_char(&mut r, digit_char_exec(n % 10));
        r
    }
}

/// The length of the prefix of `s` before its first `.`, or of all of `s`
/// when it has none.
pub open spec fn base_len(s: Seq<char>) -> nat
    decreases s.len(),
{
    if s.len() == 0 {
        0
    } else if s[0] == '.' {
        0
    } else {
        1 + base_len(s.drop_first())
    }
}

/// When no `.` occurs before `limit` and one occurs at `limit` (or `limit`
/// is the whole length), the base part ends exactly at `limit`.
proof fn lemma_base_len(s: Seq<char>, limit: int)
    requires
        0 <= limit <= s.len(),
        forall|k: int| 0 <= k < limit ==> s[k] != '.',
        limit == s.len() || s[limit] == '.',
    ensures
        base_len(s) == limit,
    decreases s.len(),
{
    if limit > 0 {
        lemma_base_len(s.drop_first(), limit - 1);
    }
}

/// `s` with every `-` removed and every other character upper-cased.
pub open spec fn strip_dash_upper(s: Seq<char>) -> Seq<char>
    decreases s.len(),
{
    if s.len() == 0 {
        Seq::empty()
    } else if s.last() == '-' {
        strip_dash_upper(s.drop_last())
    } else {
        strip_dash_upper(s.drop_last()).push(upper_char(s.last()))
    }
}

/// The position of the first `.` in `s`, or its length when it has none.
fn find_dot(s: &str) -> (r: usize)
    ensures
        r <= s@.len(),
        forall|k: int| 0 <= k < r ==> s@[k] != '.',
        r == s@.len() || s@[r as int] == '.',
{
    let n = s.unicode_len();
    let mut i: usize = 0;
    while i < n
        invariant
            n == s@.len(),
            i <= n,
            forall|k: int| 0 <= k < i ==> s@[k] != '.',
        decreases n - i,
    {
        if s.get_char(i) == '.' {
            return i;
        }
        i = i + 1;
    }
    i
}

/// The managed entry name a file name yields: the part before the first
/// `.`, with every `-` removed and every other character upper-cased.
pub open spec fn entry_name_spec(s: Seq<char>) -> Seq<char> {
    strip_dash_upper(s.take(base_len(s) as int))
}

/// Derive the managed entry name from a file name.
pub fn entry_name_of(file_name: &str) -> (r: String)
    ensures
        r@ == entry_name_spec(file_name@),
{
    let n = file_name.unicode_len();
    let limit = find_dot(file_name);
    proof {
        lemma_base_len(file_name@, limit as int);
    }
    let mut r = String::new();
    let mut j: usize = 0;
    while j < limit
        invariant
            n == file_name@.len(),
            j <= limit <= n,
            r@ == strip_dash_upper(file_name@.take(j as int)),
        decreases limit - j,
    {
        let c = file_name.get_char(j);
        proof {
            assert(file_name@.take(j as int + 1).drop_last() =~= file_name@.take(j as int));
            assert(file_name@.take(j as int + 1).last() == file_name@[j as int]);
        }
        if c != '-' {
            push_char(&mut r, upper_char_exec(c));
        }
        j = j + 1;
    }
    r
}

/// Whether some element of `hay` holds the characters of `needle`.
pub open spec fn contains_str_spec(hay: Seq<Seq<char>>, needle: Seq<char>) -> bool {
    exists|i: int| 0 <= i < hay.len() && hay[i] == needle
}

/// Whether some element of `hay` holds the characters of `needle`.
pub fn contains_str(hay: &Vec<String>, needle: &str) -> (r: bool)
    ensures
        r == contains_str_spec(hay.deep_view(), needle@),
{
    let n = hay.len();
    let mut i: usize = 0;
    while i < n
        invariant
            n == hay@.len(),
            i <= n,
            forall|k: int| 0 <= k < i ==> hay.deep_view()[k] != needle@,
        decreases n - i,
    {
        if str_eq(hay[i].as_str(), needle) {
            proof {
                assert(hay.deep_view()[i as int] == needle@);
            }
            return true;
        }
        i = i + 1;
    }
    false
}

/// Whether one of the first `n` elements of `hay` holds the characters of
/// `needle`.
fn contains_str_upto(hay: &Vec<String>, n: usize, needle: &str) -> (r: bool)
    requires
        n <= hay@.len(),
    ensures
        r == contains_str_spec(hay.deep_view().take(n as int), needle@),
{
    let mut i: usize = 0;
    while i < n
        invariant
            n <= hay@.len(),
            i <= n,
            forall|k: int| 0 <= k < i ==> hay.deep_view()[k] != needle@,
        decreases n - i,
    {
        if str_eq(hay[i].as_str(), needle) {
            proof {
                assert(hay.deep_view().take(n as int)[i as int] == needle@);
            }
            return true;
        }
        i = i + 1;
    }
    proof {
        assert(forall|k: int|
            0 <= k < n ==> #[trigger] hay.deep_view().take(n as int)[k] == hay.deep_view()[k]);
    }
    false
}

/// The elements of `have` that occur nowhere in `known`, in their order in
/// `have`, each value once, at its first occurrence.
pub open spec fn missing_from(have: Seq<Seq<char>>, known: Seq<Seq<char>>) -> Seq<Seq<char>>
    decreases have.len(),
{
    if have.len() == 0 {
        Seq::empty()
    } else {
        missing_from(have.drop_last(), known) + if contains_str_spec(known, have.last())
            || contains_str_spec(have.drop_last(), have.last()) {
            Seq::<Seq<char>>::empty()
        } else {
            seq![have.last()]
        }
    }
}

/// The names in `have` that `known` lacks, in order; a name that occurs in
/// `have` several times is reported once.
pub fn names_missing_from(have: &Vec<String>, known: &Vec<String>) -> (r: Vec<String>)
    ensures
        r.deep_view() == missing_from(have.deep_view(), known.deep_view()),
{
    let mut out: Vec<String> = Vec::new();
    let n = have.len();
    let mut i: usize = 0;
    proof {
        assert(have.deep_view().take(0) =~= Seq::<Seq<char>>::empty());
        assert(out.deep_view() =~~= missing_from(have.deep_view().take(0), known.deep_view()));
    }
    while i < n
        invariant
            n == have@.len(),
            i <= n,
            out.deep_view() == missing_from(have.deep_view().take(i as int), known.deep_view()),
        decreases n - i,
    {
        proof {
            assert(have.deep_view().take(i as int + 1).drop_last() =~= have.deep_view().take(
                i as int,
            ));
            assert(have.deep_view().take(i as int + 1).last() == have.deep_view()[i as int]);
            assert(have@[i as int]@ == have.deep_view()[i as int]);
        }
        if !contains_str(known, have[i].as_str()) && !contains_str_upto(have, i, have[i].as_str())
        {
            out.push(have[i].clone());
        }
        proof {
            assert(out.deep_view() =~~= missing_from(
                have.deep_view().take(i as int + 1),
                known.deep_view(),
            ));
        }
        i = i + 1;
    }
    proof {
        assert(have.deep_view().take(n as int) =~= have.deep_view());
    }
    out
}

/// Lexicographic order on character sequences, by code point: the order
/// strings sort under.
pub open spec fn lex_le(a: Seq<char>, b: Seq<char>) -> bool
    decreases a.len(),
{
    if a.len() == 0 {
        true
    } else if b.len() == 0 {
        false
    } else if a[0] == b[0] {
        lex_le(a.drop_first(), b.drop_first())
    } else {
        (a[0] as int) < (b[0] as int)
    }
}

/// The order is reflexive.
pub proof fn lemma_lex_le_refl(a: Seq<char>)
    ensures
        lex_le(a, a),
    decreases a.len(),
{
    if a.len() > 0 {
        lemma_lex_le_refl(a.drop_first());
    }
}

/// The order is total: of any two strings, one is at most the other.
pub proof fn lemma_lex_le_total(a: Seq<char>, b: Seq<char>)
    ensures
        lex_le(a, b) || lex_le(b, a),
    decreases a.len(),
{
    if a.len() > 0 && b.len() > 0 {
        if a[0] == b[0] {
            lemma_lex_le_total(a.drop_first(), b.drop_first());
        } else {
            assert(a[0] as int != b[0] as int);
        }
    }
}

/// The order is transitive.
pub proof fn lemma_lex_le_trans(a: Seq<char>, b: Seq<char>, c: Seq<char>)
    requires
        lex_le(a, b),
        lex_le(b, c),
    ensures
        lex_le(a, c),
    decreases a.len(),
{
    if a.len() > 0 && b.len() > 0 && c.len() > 0 && a[0] == b[0] && b[0] == c[0] {
        lemma_lex_le_trans(a.drop_first(), b.drop_first(), c.drop_first());
    }
}

/// Whether `a` sorts at or before `b`.
pub fn lex_le_exec(a: &str, b: &str) -> (r: bool)
    ensures
        r == lex_le(a@, b@),
{
    let an = a.unicode_len();
    let bn = b.unicode_len();
    let mut i: usize = 0;
    proof {
        assert(a@.skip(0) =~= a@);
        assert(b@.skip(0) =~= b@);
    }
    while i < an && i < bn
        invariant
            an == a@.len(),
            bn == b@.len(),
            i <= an,
            i <= bn,
            lex_le(a@, b@) == lex_le(a@.skip(i as int), b@.skip(i as int)),
        decreases an - i,
    {
        let ca = a.get_char(i);
        let cb = b.get_char(i);
        proof {
            assert(a@.skip(i as int)[0] == a@[i as int]);
            assert(b@.skip(i as int)[0] == b@[i as int]);
            assert(a@.skip(i as int).drop_first() =~= a@.skip(i as int + 1));
            assert(b@.skip(i as int).drop_first() =~= b@.skip(i as int + 1));
        }
        if ca != cb {
            return ca < cb;
        }
        i = i + 1;
    }
    proof {
        if i == an {
            assert(a@.skip(i as int).len() == 0);
        } else {
            assert(b@.skip(i as int).len() == 0);
            assert(a@.skip(i as int).len() > 0);
        }
    }
    an <= bn
}

/// The numeric value of a decimal digit character; 10 marks any other
/// character.
pub open spec fn digit_val(c: char) -> nat {
    match c {
        '0' => 0,
        '1' => 1,
        '2' => 2,
        '3' => 3,
        '4' => 4,
        '5' => 5,
        '6' => 6,
        '7' => 7,
        '8' => 8,
        '9' => 9,
        _ => 10,
    }
}

/// The numeric value of a decimal digit character; 10 marks any other
/// character.
pub fn digit_val_exec(c: char) -> (r: usize)
    ensures
        r as nat == digit_val(c),
{
    match c {
        '0' => 0,
        '1' => 1,
        '2' => 2,
        '3' => 3,
        '4' => 4,
        '5' => 5,
        '6' => 6,
        '7' => 7,
        '8' => 8,
        '9' => 9,
        _ => 10,
    }
}

/// The value of a digit string read in decimal, most significant first;
/// non-digit characters contribute as the marker value 10.
pub open spec fn digits_val(s: Seq<char>) -> nat
    decreases s.len(),
{
    if s.len() == 0 {
        0
    } else {
        digits_val(s.drop_last()) * 10 + digit_val(s.last())
    }
}

/// Whether every character of `s` is a decimal digit.
pub open spec fn all_digits(s: Seq<char>) -> bool {
    forall|i: int| 0 <= i < s.len() ==> digit_val(#[trigger] s[i]) < 10
}

/// A digit string's value only grows as digits are appended: every prefix
/// reads at most the whole.
pub proof fn lemma_digits_val_prefix(s: Seq<char>, j: int)
    requires
        0 <= j <= s.len(),
    ensures
        digits_val(s.take(j)) <= digits_val(s),
    decreases s.len(),
{
    if j < s.len() {
        assert(s.drop_last().take(j) =~= s.take(j));
        lemma_digits_val_prefix(s.drop_last(), j);
    } else {
        assert(s.take(j) =~= s);
    }
}

/// The decimal rendering of `n` left-padded with `0` to at least two
/// characters.
pub open spec fn dec2_str(n: nat) -> Seq<char> {
    if n < 10 {
        seq!['0'].push(digit_char(n))
    } else {
        dec_str(n)
    }
}

/// Render `n` in decimal, left-padded with `0` to at least two characters.
pub fn u64_to_dec2(n: u64) -> (r: String)
    ensures
        r@ == dec2_str(n as nat),
{
    if n < 10 {
        let mut r = String::new();
        push_char(&mut r, '0');
        push_char(&mut r, digit_char_exec(n));
        proof {
            assert(r@ =~= dec2_str(n as nat));
        }
        r
    } else {
        u64_to_dec(n)
    }
}

} // verus!
