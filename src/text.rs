use vstd::prelude::*;

verus! {

/// Whether two strings hold the same characters.
pub fn str_is(a: &str, b: &str) -> (r: bool)
    ensures
        r == (a@ == b@),
{
    let x = a.to_owned();
    let y = b.to_owned();
    x == y
}

/// Whether `p` is a prefix of `s`.
pub open spec fn starts_with(s: Seq<char>, p: Seq<char>) -> bool {
    p.len() <= s.len() && s.subrange(0, p.len() as int) == p
}

/// The rest of `name` after `prefix`, where `name` starts with `prefix`.
pub fn strip_prefix<'a>(name: &'a str, prefix: &str) -> (r: Option<&'a str>)
    ensures
        r is Some <==> starts_with(name@, prefix@),
        r is Some ==> r->Some_0@ == name@.subrange(prefix@.len() as int, name@.len() as int),
{
    let n = name.unicode_len();
    let p = prefix.unicode_len();
    if p > n {
        return None;
    }
    let head = name.substring_char(0, p);
    if str_is(head, prefix) {
        Some(name.substring_char(p, n))
    } else {
        None
    }
}

/// The characters of `s` after its last `:`; all of `s` where it has none.
pub open spec fn last_segment(s: Seq<char>) -> Seq<char>
    decreases s.len(),
{
    if s.len() == 0 {
        s
    } else if s.last() == ':' {
        Seq::empty()
    } else {
        last_segment(s.drop_last()).push(s.last())
    }
}

/// The last segment of a path such as `a::b::Counter`.
pub fn path_last_segment(s: &str) -> (r: &str)
    ensures
        r@ == last_segment(s@),
{
    let n = s.unicode_len();
    let mut start: usize = 0;
    let mut i: usize = 0;
    while i < n
        invariant
            n == s@.len(),
            start <= i <= n,
            last_segment(s@.subrange(0, i as int)) == s@.subrange(start as int, i as int),
        decreases n - i,
    {
        assert(s@.subrange(0, i + 1).drop_last() =~= s@.subrange(0, i as int));
        if s.get_char(i) == ':' {
            start = i + 1;
        }
        i = i + 1;
        assert(s@.subrange(start as int, i as int) =~= last_segment(s@.subrange(0, i as int)));
    }
    assert(s@.subrange(0, n as int) =~= s@);
    s.substring_char(start, n)
}

/// The characters of `s` other than spaces.
pub open spec fn without_spaces(s: Seq<char>) -> Seq<char>
    decreases s.len(),
{
    if s.len() == 0 {
        s
    } else if s.last() == ' ' {
        without_spaces(s.drop_last())
    } else {
        without_spaces(s.drop_last()).push(s.last())
    }
}

pub open spec fn is_digit(c: char) -> bool {
    '0' <= c && c <= '9'
}

/// The number written in decimal by the digits `d`.
pub open spec fn decimal_value(d: Seq<char>) -> nat
    decreases d.len(),
{
    if d.len() == 0 {
        0
    } else {
        decimal_value(d.drop_last()) * 10 + (d.last() as nat - '0' as nat) as nat
    }
}

/// The number of seconds written in generic arguments such as `< 60 >`: once
/// spaces are removed, one or more decimal digits between `<` and `>`, with a
/// value that fits in a `u64`.
pub open spec fn retention_of(args: Seq<char>) -> Option<u64> {
    let t = without_spaces(args);
    let d = t.subrange(1, t.len() - 1);
    if t.len() >= 3 && t[0] == '<' && t.last() == '>' && (forall|i: int|
        0 <= i < d.len() ==> is_digit(#[trigger] d[i])) && decimal_value(d) <= u64::MAX {
        Some(decimal_value(d) as u64)
    } else {
        None
    }
}

/// Reads a retention from generic arguments; see `retention_of`.
pub fn parse_retention(args: &str) -> (r: Option<u64>)
    ensures
        r == retention_of(args@),
{
    let n = args.unicode_len();
    let mut t: Vec<char> = Vec::new();
    let mut i: usize = 0;
    while i < n
        invariant
            n == args@.len(),
            i <= n,
            t@ == without_spaces(args@.subrange(0, i as int)),
        decreases n - i,
    {
        assert(args@.subrange(0, i + 1).drop_last() =~= args@.subrange(0, i as int));
        let c = args.get_char(i);
        if c != ' ' {
            t.push(c);
        }
        i = i + 1;
    }
    assert(args@.subrange(0, n as int) =~= args@);
    let len = t.len();
    if len < 3 || t[0] != '<' || t[len - 1] != '>' {
        return None;
    }
    let ghost d = t@.subrange(1, len - 1);
    assert(t@ == without_spaces(args@));
    let mut value: u64 = 0;
    let mut j: usize = 1;
    while j < len - 1
        invariant
            3 <= len == t@.len(),
            t@ == without_spaces(args@),
            t@[0] == '<' && t@[len - 1] == '>',
            d == t@.subrange(1, len - 1),
            1 <= j <= len - 1,
            forall|k: int| 0 <= k < j - 1 ==> is_digit(#[trigger] d[k]),
            value == decimal_value(d.subrange(0, j - 1)),
        decreases len - 1 - j,
    {
        let c = t[j];
        assert(d.subrange(0, j as int).drop_last() =~= d.subrange(0, j - 1));
        if c < '0' || c > '9' {
            assert(!is_digit(d[j - 1]));
            assert(!(forall|k: int| 0 <= k < d.len() ==> is_digit(#[trigger] d[k])));
            return None;
        }
        let digit = (c as u32 - '0' as u32) as u64;
        if value > (u64::MAX - digit) / 10 {
            proof {
                assert(value * 10 + digit > u64::MAX) by (nonlinear_arith)
                    requires
                        value > (u64::MAX - digit) / 10,
                        digit <= 9,
                ;
                assert(decimal_value(d.subrange(0, j as int)) == value * 10 + digit);
                lemma_decimal_grows(d, j as int);
            }
            return None;
        }
        value = value * 10 + digit;
        j = j + 1;
    }
    assert(d.subrange(0, len - 2) =~= d);
    Some(value)
}

/// A number only grows as digits are added to it.
proof fn lemma_decimal_prefix(d: Seq<char>, j: int, k: int)
    requires
        0 <= j <= k <= d.len(),
        forall|i: int| 0 <= i < d.len() ==> is_digit(#[trigger] d[i]),
    ensures
        decimal_value(d.subrange(0, j)) <= decimal_value(d.subrange(0, k)),
    decreases k - j,
{
    if j < k {
        lemma_decimal_prefix(d, j, k - 1);
        assert(d.subrange(0, k).drop_last() =~= d.subrange(0, k - 1));
    }
}

/// Where the first `j` digits already overflow, the whole number does, or a
/// later character is not a digit.
proof fn lemma_decimal_grows(d: Seq<char>, j: int)
    requires
        1 <= j <= d.len(),
        decimal_value(d.subrange(0, j)) > u64::MAX,
    ensures
        !((forall|i: int| 0 <= i < d.len() ==> is_digit(#[trigger] d[i])) && decimal_value(d)
            <= u64::MAX),
{
    if forall|i: int| 0 <= i < d.len() ==> is_digit(#[trigger] d[i]) {
        lemma_decimal_prefix(d, j, d.len() as int);
        assert(d.subrange(0, d.len() as int) =~= d);
    }
}

/// `c` with an ASCII lower-case letter replaced by its upper-case form.
pub open spec fn upper_char(c: char) -> char {
    if 'a' <= c && c <= 'z' {
        ((c as u32) - 32) as char
    } else {
        c
    }
}

/// `s` with every ASCII lower-case letter replaced by its upper-case form.
pub open spec fn ascii_upper(s: Seq<char>) -> Seq<char> {
    s.map_values(|c: char| upper_char(c))
}

/// Relies on `str::to_ascii_uppercase`: ASCII letters `a` to `z` become `A`
/// to `Z`, every other character stays as it is.
#[verifier::external_body]
pub fn to_ascii_upper(s: &str) -> (r: String)
    ensures
        r@ == ascii_upper(s@),
{
    s.to_ascii_uppercase()
}

/// The snake-case form of a name, as the `Inflector` crate writes it.
pub uninterp spec fn snake_case_of(s: Seq<char>) -> Seq<char>;

/// Relies on `inflector::cases::snakecase::to_snake_case`, whose result
/// depends on the characters of its argument alone.
#[verifier::external_body]
pub fn snake_case(s: &str) -> (r: String)
    ensures
        r@ == snake_case_of(s@),
{
    inflector::cases::snakecase::to_snake_case(s)
}

} // verus!
