use vstd::prelude::*;

verus! {

// ---------------------------------------------------------------------------
// Equality and prefix tests on character sequences
// ---------------------------------------------------------------------------

/// Character-wise equality of two string slices.
pub fn str_eq(a: &str, b: &str) -> (r: bool)
    ensures
        r == (a@ == b@),
{
    let alen = a.unicode_len();
    let blen = b.unicode_len();
    if alen != blen {
        return false;
    }
    let mut i: usize = 0;
    while i < alen
        invariant
            a@.len() == alen,
            b@.len() == blen,
            alen == blen,
            i <= alen,
            forall|j: int| 0 <= j < i ==> a@[j] == b@[j],
        decreases alen - i,
    {
        if a.get_char(i) != b.get_char(i) {
            return false;
        }
        i = i + 1;
    }
    proof {
        assert(a@ =~= b@);
    }
    true
}

/// True when `p` is a prefix of `s`.
pub fn str_starts_with(s: &str, p: &str) -> (r: bool)
    ensures
        r == p@.is_prefix_of(s@),
{
    let slen = s.unicode_len();
    let plen = p.unicode_len();
    if plen > slen {
        return false;
    }
    let mut i: usize = 0;
    while i < plen
        invariant
            s@.len() == slen,
            p@.len() == plen,
            plen <= slen,
            i <= plen,
            forall|j: int| 0 <= j < i ==> s@[j] == p@[j],
        decreases plen - i,
    {
        if s.get_char(i) != p.get_char(i) {
            proof {
                assert(s@.subrange(0, p@.len() as int)[i as int] != p@[i as int]);
            }
            return false;
        }
        i = i + 1;
    }
    proof {
        assert(s@.subrange(0, p@.len() as int) =~= p@);
    }
    true
}

/// The slice after a prefix, when the prefix is there.
pub fn str_strip_prefix<'a>(s: &'a str, p: &str) -> (r: Option<&'a str>)
    ensures
        r is Some <==> p@.is_prefix_of(s@),
        r is Some ==> r->0@ == s@.skip(p@.len() as int),
{
    if str_starts_with(s, p) {
        let rest = s.substring_char(p.unicode_len(), s.unicode_len());
        proof {
            assert(rest@ =~= s@.skip(p@.len() as int));
        }
        Some(rest)
    } else {
        None
    }
}

// ---------------------------------------------------------------------------
// Trimming
// ---------------------------------------------------------------------------

/// The whitespace characters the deploy log can carry around its tokens.
pub open spec fn is_space(c: char) -> bool {
    c == ' ' || c == '\t' || c == '\r' || c == '\n'
}

pub open spec fn spec_trim_start(s: Seq<char>) -> Seq<char>
    decreases s.len(),
{
    if s.len() > 0 && is_space(s[0]) {
        spec_trim_start(s.skip(1))
    } else {
        s
    }
}

pub open spec fn spec_trim_end(s: Seq<char>) -> Seq<char>
    decreases s.len(),
{
    if s.len() > 0 && is_space(s[s.len() - 1]) {
        spec_trim_end(s.take(s.len() - 1))
    } else {
        s
    }
}

/// `s` with leading and trailing whitespace removed.
pub open spec fn spec_trim(s: Seq<char>) -> Seq<char> {
    spec_trim_end(spec_trim_start(s))
}

proof fn lemma_trim_start_at(s: Seq<char>, i: int)
    requires
        0 <= i <= s.len(),
        forall|k: int| 0 <= k < i ==> is_space(s[k]),
        i < s.len() ==> !is_space(s[i]),
    ensures
        spec_trim_start(s) == s.skip(i),
    decreases i,
{
    if i == 0 {
        if s.len() > 0 && is_space(s[0]) {
            assert(false);
        }
        assert(s.skip(0) =~= s);
    } else {
        assert(is_space(s[0]));
        lemma_trim_start_at(s.skip(1), i - 1);
        assert(s.skip(1).skip(i - 1) =~= s.skip(i));
    }
}

proof fn lemma_trim_end_at(s: Seq<char>, j: int)
    requires
        0 <= j <= s.len(),
        forall|k: int| j <= k < s.len() ==> is_space(s[k]),
        j > 0 ==> !is_space(s[j - 1]),
    ensures
        spec_trim_end(s) == s.take(j),
    decreases s.len() - j,
{
    if j == s.len() {
        if s.len() > 0 && is_space(s[s.len() - 1]) {
            assert(false);
        }
        assert(s.take(s.len() as int) =~= s);
    } else {
        assert(is_space(s[s.len() - 1]));
        lemma_trim_end_at(s.take(s.len() - 1), j);
        assert(s.take(s.len() - 1).take(j) =~= s.take(j));
    }
}

fn is_space_char(c: char) -> (r: bool)
    ensures
        r == is_space(c),
{
    c == ' ' || c == '\t' || c == '\r' || c == '\n'
}

/// `s` with leading and trailing whitespace removed.
pub fn str_trim(s: &str) -> (r: &str)
    ensures
        r@ == spec_trim(s@),
{
    let len = s.unicode_len();
    let mut i: usize = 0;
    while i < len && is_space_char(s.get_char(i))
        invariant
            s@.len() == len,
            i <= len,
            forall|k: int| 0 <= k < i ==> is_space(s@[k]),
        decreases len - i,
    {
        i = i + 1;
    }
    let mut j: usize = len;
    while j > i && is_space_char(s.get_char(j - 1))
        invariant
            s@.len() == len,
            i <= j <= len,
            forall|k: int| j <= k < len ==> is_space(s@[k]),
        decreases j,
    {
        j = j - 1;
    }
    proof {
        lemma_trim_start_at(s@, i as int);
        let t = s@.skip(i as int);
        if j == i {
            lemma_trim_end_at(t, 0);
        } else {
            lemma_trim_end_at(t, j - i);
        }
        assert(t.take(j - i) =~= s@.subrange(i as int, j as int));
    }
    let r = s.substring_char(i, j);
    proof {
        assert(r@ =~= spec_trim(s@));
    }
    r
}

// ---------------------------------------------------------------------------
// Joining
// ---------------------------------------------------------------------------

/// The elements of `elems` concatenated with `sep` between neighbours.
pub open spec fn spec_join(elems: Seq<Seq<char>>, sep: Seq<char>) -> Seq<char>
    decreases elems.len(),
{
    if elems.len() == 0 {
        Seq::empty()
    } else if elems.len() == 1 {
        elems[0]
    } else {
        elems[0] + sep + spec_join(elems.skip(1), sep)
    }
}

proof fn lemma_join_push(elems: Seq<Seq<char>>, sep: Seq<char>, x: Seq<char>)
    ensures
        elems.len() == 0 ==> spec_join(elems.push(x), sep) == x,
        elems.len() > 0 ==> spec_join(elems.push(x), sep) == spec_join(elems, sep) + sep + x,
    decreases elems.len(),
{
    if elems.len() == 0 {
        assert(elems.push(x)[0] == x);
    } else if elems.len() == 1 {
        assert(elems.push(x).skip(1) =~= seq![x]);
        assert(spec_join(seq![x], sep) == x);
        assert(spec_join(elems.push(x), sep) == elems[0] + sep + x);
        assert(spec_join(elems, sep) == elems[0]);
    } else {
        lemma_join_push(elems.skip(1), sep, x);
        assert(elems.push(x).skip(1) =~= elems.skip(1).push(x));
        assert((elems[0] + sep) + (spec_join(elems.skip(1), sep) + sep + x) =~= (elems[0] + sep
            + spec_join(elems.skip(1), sep)) + sep + x);
    }
}

/// Join a list of strings with a separator.
pub fn join_strings(elems: &Vec<String>, sep: &str) -> (r: String)
    ensures
        r@ == spec_join(elems.deep_view(), sep@),
{
    let mut r = String::new();
    let mut i: usize = 0;
    while i < elems.len()
        invariant
            i <= elems.len(),
            elems.deep_view().len() == elems.len(),
            r@ == spec_join(elems.deep_view().take(i as int), sep@),
        decreases elems.len() - i,
    {
        proof {
            assert(elems.deep_view()[i as int] == elems[i as int]@);
            lemma_join_push(elems.deep_view().take(i as int), sep@, elems.deep_view()[i as int]);
            assert(elems.deep_view().take(i as int).push(elems.deep_view()[i as int])
                =~= elems.deep_view().take(i + 1));
        }
        if i > 0 {
            r.append(sep);
        }
        r.append(elems[i].as_str());
        i = i + 1;
    }
    proof {
        assert(elems.deep_view().take(elems.len() as int) =~= elems.deep_view());
    }
    r
}

// ---------------------------------------------------------------------------
// Decimal rendering of counts
// ---------------------------------------------------------------------------

pub open spec fn spec_digit(d: nat) -> char {
    if d == 0 {
        '0'
    } else if d == 1 {
        '1'
    } else if d == 2 {
        '2'
    } else if d == 3 {
        '3'
    } else if d == 4 {
        '4'
    } else if d == 5 {
        '5'
    } else if d == 6 {
        '6'
    } else if d == 7 {
        '7'
    } else if d == 8 {
        '8'
    } else {
        '9'
    }
}

/// Decimal representation of a number, most significant digit first.
pub open spec fn spec_decimal(n: nat) -> Seq<char>
    decreases n,
{
    if n < 10 {
        seq![spec_digit(n)]
    } else {
        spec_decimal(n / 10) + seq![spec_digit(n % 10)]
    }
}

fn digit_str(d: usize) -> (r: &'static str)
    requires
        d < 10,
    ensures
        r@ =~= seq![spec_digit(d as nat)],
{
    proof {
        reveal_strlit("0");
        reveal_strlit("1");
        reveal_strlit("2");
        reveal_strlit("3");
        reveal_strlit("4");
        reveal_strlit("5");
        reveal_strlit("6");
        reveal_strlit("7");
        reveal_strlit("8");
        reveal_strlit("9");
    }
    match d {
        0 => "0",
        1 => "1",
        2 => "2",
        3 => "3",
        4 => "4",
        5 => "5",
        6 => "6",
        7 => "7",
        8 => "8",
        _ => "9",
    }
}

/// Render a count in decimal.
pub fn usize_to_string(n: usize) -> (r: String)
    ensures
        r@ == spec_decimal(n as nat),
    decreases n,
{
    if n < 10 {
        digit_str(n).to_owned()
    } else {
        let mut r = usize_to_string(n / 10);
        r.append(digit_str(n % 10));
        r
    }
}

// ---------------------------------------------------------------------------
// Lexicographic order on character sequences
// ---------------------------------------------------------------------------

/// Lexicographic order by character code, the order `str` comparison uses.
pub open spec fn lex_le(a: Seq<char>, b: Seq<char>) -> bool
    decreases a.len(),
{
    if a.len() == 0 {
        true
    } else if b.len() == 0 {
        false
    } else if a[0] != b[0] {
        (a[0] as u32) < (b[0] as u32)
    } else {
        lex_le(a.skip(1), b.skip(1))
    }
}

proof fn lemma_lex_le_skip(a: Seq<char>, b: Seq<char>, i: int)
    requires
        0 <= i <= a.len(),
        i <= b.len(),
        forall|k: int| 0 <= k < i ==> a[k] == b[k],
    ensures
        lex_le(a, b) == lex_le(a.skip(i), b.skip(i)),
    decreases i,
{
    if i > 0 {
        assert(a[0] == b[0]);
        assert(a.len() > 0);
        lemma_lex_le_skip(a.skip(1), b.skip(1), i - 1);
        assert(a.skip(1).skip(i - 1) =~= a.skip(i));
        assert(b.skip(1).skip(i - 1) =~= b.skip(i));
    } else {
        assert(a.skip(0) =~= a);
        assert(b.skip(0) =~= b);
    }
}

pub proof fn lemma_lex_le_total(a: Seq<char>, b: Seq<char>)
    ensures
        lex_le(a, b) || lex_le(b, a),
        lex_le(a, b) && lex_le(b, a) ==> a == b,
    decreases a.len(),
{
    if a.len() == 0 {
        if lex_le(a, b) && lex_le(b, a) {
            assert(b.len() == 0);
            assert(a =~= b);
        }
    } else if b.len() == 0 {
    } else if a[0] != b[0] {
        assert((a[0] as u32) != (b[0] as u32)) by {
            vstd::utf8::char_u32_cast(a[0], a[0] as u32);
            vstd::utf8::char_u32_cast(b[0], b[0] as u32);
        }
    } else {
        lemma_lex_le_total(a.skip(1), b.skip(1));
        if lex_le(a, b) && lex_le(b, a) {
            assert(a.skip(1) =~= b.skip(1));
            assert(a =~= seq![a[0]] + a.skip(1));
            assert(b =~= seq![b[0]] + b.skip(1));
        }
    }
}

pub proof fn lemma_lex_le_trans(a: Seq<char>, b: Seq<char>, c: Seq<char>)
    requires
        lex_le(a, b),
        lex_le(b, c),
    ensures
        lex_le(a, c),
    decreases a.len(),
{
    if a.len() == 0 {
    } else {
        assert(b.len() > 0);
        assert(c.len() > 0);
        if a[0] == b[0] && b[0] == c[0] {
            lemma_lex_le_trans(a.skip(1), b.skip(1), c.skip(1));
        }
    }
}

/// Compare two string slices in lexicographic character-code order.
pub fn str_le(a: &str, b: &str) -> (r: bool)
    ensures
        r == lex_le(a@, b@),
{
    let alen = a.unicode_len();
    let blen = b.unicode_len();
    let min = if alen < blen {
        alen
    } else {
        blen
    };
    let mut i: usize = 0;
    while i < min
        invariant
            a@.len() == alen,
            b@.len() == blen,
            min <= alen,
            min <= blen,
            i <= min,
            forall|k: int| 0 <= k < i ==> a@[k] == b@[k],
        decreases min - i,
    {
        let ca = a.get_char(i);
        let cb = b.get_char(i);
        if ca != cb {
            proof {
                lemma_lex_le_skip(a@, b@, i as int);
            }
            return (ca as u32) < (cb as u32);
        }
        i = i + 1;
    }
    proof {
        lemma_lex_le_skip(a@, b@, min as int);
        if alen <= blen {
            assert(a@.skip(min as int) =~= Seq::<char>::empty());
        } else {
            assert(b@.skip(min as int) =~= Seq::<char>::empty());
            assert(a@.skip(min as int).len() > 0);
        }
    }
    alen <= blen
}

} // verus!

verus! {

/// True when `v` holds a string equal to `s`.
pub fn contains_string(v: &Vec<String>, s: &str) -> (r: bool)
    ensures
        r == v.deep_view().contains(s@),
{
    let n = v.len();
    let mut i: usize = 0;
    while i < n
        invariant
            n == v.len(),
            i <= n,
            forall|j: int| 0 <= j < i ==> v.deep_view()[j] != s@,
        decreases n - i,
    {
        if str_eq(v[i].as_str(), s) {
            proof {
                assert(v.deep_view()[i as int] == s@);
            }
            return true;
        }
        i = i + 1;
    }
    proof {
        assert(forall|j: int| 0 <= j < v.deep_view().len() ==> v.deep_view()[j] != s@);
    }
    false
}

} // verus!

verus! {

// ---------------------------------------------------------------------------
// Locating the last open parenthesis and stripping closing ones
// ---------------------------------------------------------------------------

/// Index of the last `'('` in `s`, or `-1` when there is none.
pub open spec fn last_paren(s: Seq<char>) -> int
    decreases s.len(),
{
    if s.len() == 0 {
        -1
    } else if s.last() == '(' {
        s.len() - 1
    } else {
        last_paren(s.drop_last())
    }
}

proof fn lemma_last_paren_take(s: Seq<char>, j: int)
    requires
        0 <= j <= s.len(),
        forall|k: int| j <= k < s.len() ==> s[k] != '(',
    ensures
        last_paren(s) == last_paren(s.take(j)),
    decreases s.len() - j,
{
    if j < s.len() {
        assert(s.last() != '(');
        lemma_last_paren_take(s.drop_last(), j);
        assert(s.drop_last().take(j) =~= s.take(j));
    } else {
        assert(s.take(j) =~= s);
    }
}

/// Index of the last `'('`, when there is one.
pub fn find_last_paren(s: &str) -> (r: Option<usize>)
    ensures
        r is Some ==> last_paren(s@) == r->0 as int && (r->0 as int) < s@.len() && s@[r->0 as int]
            == '(',
        r is None ==> last_paren(s@) == -1,
{
    let len = s.unicode_len();
    let mut j: usize = len;
    while j > 0
        invariant
            s@.len() == len,
            j <= len,
            forall|k: int| j <= k < len ==> s@[k] != '(',
        decreases j,
    {
        if s.get_char(j - 1) == '(' {
            proof {
                lemma_last_paren_take(s@, j as int);
                assert(s@.take(j as int).last() == s@[j - 1]);
            }
            return Some(j - 1);
        }
        j = j - 1;
    }
    proof {
        lemma_last_paren_take(s@, 0);
        assert(s@.take(0) =~= Seq::<char>::empty());
    }
    None
}

/// `s` with every trailing `')'` removed.
pub open spec fn strip_rparens(s: Seq<char>) -> Seq<char>
    decreases s.len(),
{
    if s.len() > 0 && s.last() == ')' {
        strip_rparens(s.drop_last())
    } else {
        s
    }
}

proof fn lemma_strip_rparens_at(s: Seq<char>, j: int)
    requires
        0 <= j <= s.len(),
        forall|k: int| j <= k < s.len() ==> s[k] == ')',
        j > 0 ==> s[j - 1] != ')',
    ensures
        strip_rparens(s) == s.take(j),
    decreases s.len() - j,
{
    if j == s.len() {
        if s.len() > 0 && s.last() == ')' {
            assert(false);
        }
        assert(s.take(s.len() as int) =~= s);
    } else {
        assert(s.last() == ')');
        lemma_strip_rparens_at(s.drop_last(), j);
        assert(s.drop_last().take(j) =~= s.take(j));
    }
}

/// Copy `s` with every trailing `')'` removed.
pub fn trim_end_rparens(s: &str) -> (r: String)
    ensures
        r@ == strip_rparens(s@),
{
    let len = s.unicode_len();
    let mut j: usize = len;
    while j > 0 && s.get_char(j - 1) == ')'
        invariant
            s@.len() == len,
            j <= len,
            forall|k: int| j <= k < len ==> s@[k] == ')',
        decreases j,
    {
        j = j - 1;
    }
    proof {
        lemma_strip_rparens_at(s@, j as int);
    }
    let r = s.substring_char(0, j);
    proof {
        assert(r@ =~= s@.take(j as int));
    }
    r.to_owned()
}

} // verus!

verus! {

/// Index of the last occurrence of `c` in `s`, or `-1`.
pub open spec fn last_index_of_char(s: Seq<char>, c: char) -> int
    decreases s.len(),
{
    if s.len() == 0 {
        -1
    } else if s.last() == c {
        s.len() - 1
    } else {
        last_index_of_char(s.drop_last(), c)
    }
}

proof fn lemma_last_index_of_char_take(s: Seq<char>, c: char, j: int)
    requires
        0 <= j <= s.len(),
        forall|k: int| j <= k < s.len() ==> s[k] != c,
    ensures
        last_index_of_char(s, c) == last_index_of_char(s.take(j), c),
    decreases s.len() - j,
{
    if j < s.len() {
        assert(s.last() != c);
        lemma_last_index_of_char_take(s.drop_last(), c, j);
        assert(s.drop_last().take(j) =~= s.take(j));
    } else {
        assert(s.take(j) =~= s);
    }
}

/// Index of the last occurrence of `c`, when there is one.
pub fn find_last_char(s: &str, c: char) -> (r: Option<usize>)
    ensures
        r is Some ==> last_index_of_char(s@, c) == r->0 as int && (r->0 as int) < s@.len()
            && s@[r->0 as int] == c,
        r is None ==> last_index_of_char(s@, c) == -1,
{
    let len = s.unicode_len();
    let mut j: usize = len;
    while j > 0
        invariant
            s@.len() == len,
            j <= len,
            forall|k: int| j <= k < len ==> s@[k] != c,
        decreases j,
    {
        if s.get_char(j - 1) == c {
            proof {
                lemma_last_index_of_char_take(s@, c, j as int);
                assert(s@.take(j as int).last() == s@[j - 1]);
            }
            return Some(j - 1);
        }
        j = j - 1;
    }
    proof {
        lemma_last_index_of_char_take(s@, c, 0);
        assert(s@.take(0) =~= Seq::<char>::empty());
    }
    None
}

// ---------------------------------------------------------------------------
// Decimal strings are injective
// ---------------------------------------------------------------------------

proof fn lemma_decimal_len(n: nat)
    ensures
        spec_decimal(n).len() >= 1,
    decreases n,
{
    if n >= 10 {
        lemma_decimal_len(n / 10);
    }
}

pub proof fn lemma_decimal_injective(a: nat, b: nat)
    requires
        spec_decimal(a) == spec_decimal(b),
    ensures
        a == b,
    decreases a,
{
    lemma_decimal_len(a);
    lemma_decimal_len(b);
    if a < 10 && b < 10 {
        assert(spec_decimal(a)[0] == spec_digit(a));
        assert(spec_decimal(b)[0] == spec_digit(b));
        assert(a == b);
    } else if a < 10 {
        lemma_decimal_len(b / 10);
        assert(spec_decimal(b).len() >= 2);
    } else if b < 10 {
        lemma_decimal_len(a / 10);
        assert(spec_decimal(a).len() >= 2);
    } else {
        let pa = spec_decimal(a / 10);
        let pb = spec_decimal(b / 10);
        assert(spec_decimal(a).last() == spec_digit(a % 10));
        assert(spec_decimal(b).last() == spec_digit(b % 10));
        assert(a % 10 == b % 10);
        assert((pa + seq![spec_digit(a % 10)]).drop_last() =~= pa);
        assert((pb + seq![spec_digit(b % 10)]).drop_last() =~= pb);
        lemma_decimal_injective(a / 10, b / 10);
        assert(a == 10 * (a / 10) + a % 10);
        assert(b == 10 * (b / 10) + b % 10);
    }
}

/// The disambiguated alias candidate `base-k`.
pub open spec fn spec_alias_candidate(base: Seq<char>, k: nat) -> Seq<char> {
    base + "-"@ + spec_decimal(k)
}

/// Distinct numbers give distinct candidates over one base.
pub proof fn lemma_alias_candidate_injective(base: Seq<char>, j: nat, k: nat)
    requires
        spec_alias_candidate(base, j) == spec_alias_candidate(base, k),
    ensures
        j == k,
{
    let sj = spec_alias_candidate(base, j);
    let sk = spec_alias_candidate(base, k);
    let off = base.len() + "-"@.len();
    assert(spec_decimal(j) =~= sj.skip(off as int));
    assert(spec_decimal(k) =~= sk.skip(off as int));
    lemma_decimal_injective(j, k);
}

} // verus!

verus! {

/// `p` is a prefix of every string in the list.
pub open spec fn common_prefix_of(p: Seq<char>, strs: Seq<Seq<char>>) -> bool {
    forall|i: int| 0 <= i < strs.len() ==> p.is_prefix_of(#[trigger] strs[i])
}

/// The longest common prefix of a list of strings: a common prefix that the
/// first string cannot extend while staying common. Empty for an empty list.
pub fn longest_common_prefix(strings: &Vec<String>) -> (r: String)
    ensures
        strings@.len() == 0 ==> r@ == Seq::<char>::empty(),
        strings@.len() > 0 ==> common_prefix_of(r@, strings.deep_view()) && (r@.len()
            == strings.deep_view()[0].len() || !common_prefix_of(
            strings.deep_view()[0].take(r@.len() as int + 1),
            strings.deep_view(),
        )),
{
    if strings.len() == 0 {
        let r = String::new();
        proof {
            assert(r@ =~= Seq::<char>::empty());
        }
        return r;
    }
    let first = &strings[0];
    let flen = first.unicode_len();
    let n = strings.len();
    let mut len: usize = flen;
    let mut s: usize = 1;
    while s < n
        invariant
            n == strings@.len(),
            n > 0,
            first == &strings@[0],
            flen == first@.len(),
            len <= flen,
            1 <= s <= n,
            forall|i: int|
                0 <= i < s ==> strings.deep_view()[0].take(len as int).is_prefix_of(
                    #[trigger] strings.deep_view()[i],
                ),
            len == flen || !common_prefix_of(
                strings.deep_view()[0].take(len + 1),
                strings.deep_view(),
            ),
        decreases n - s,
    {
        let other = &strings[s];
        let olen = other.unicode_len();
        let mut k: usize = 0;
        let cap = if olen < len {
            olen
        } else {
            len
        };
        while k < cap && first.get_char(k) == other.get_char(k)
            invariant
                first == &strings@[0],
                other == &strings@[s as int],
                flen == first@.len(),
                olen == other@.len(),
                cap <= len <= flen,
                cap <= olen,
                k <= cap,
                forall|q: int| 0 <= q < k ==> first@[q] == other@[q],
            decreases cap - k,
        {
            k = k + 1;
        }
        if k < len {
            // the common run with this string is shorter
            proof {
                let f0 = strings.deep_view()[0];
                let os = strings.deep_view()[s as int];
                assert(f0 == first@);
                assert(os == other@);
                if k < cap {
                    assert(first@[k as int] != other@[k as int]);
                    assert(f0.take(k + 1)[k as int] != os[k as int]);
                    assert(!f0.take(k + 1).is_prefix_of(os));
                } else {
                    assert(cap == olen);
                    assert(f0.take(k + 1).len() > os.len());
                    assert(!f0.take(k + 1).is_prefix_of(os));
                }
                assert(!common_prefix_of(f0.take(k + 1), strings.deep_view()));
            }
            len = k;
        }
        proof {
            assert forall|i: int|
                0 <= i < s + 1 implies strings.deep_view()[0].take(len as int).is_prefix_of(
                #[trigger] strings.deep_view()[i],
            ) by {
                if i < s {
                } else {
                    assert(forall|q: int| 0 <= q < len ==> first@[q] == other@[q]);
                    assert(strings.deep_view()[0].take(len as int).is_prefix_of(
                        strings.deep_view()[s as int],
                    ));
                }
            }
        }
        s = s + 1;
    }
    let r = first.substring_char(0, len);
    proof {
        assert(r@ =~= strings.deep_view()[0].take(len as int));
        assert(strings.deep_view()[0].take(len as int).is_prefix_of(strings.deep_view()[0]));
    }
    r.to_owned()
}

} // verus!
