//! Small verified helpers on strings and character sequences that the
//! scanner, the grammar and the table loaders share.
use vstd::prelude::*;

verus! {

/// Equality of two string slices, decided through owned copies, since the
/// contents of both are what matters.
pub fn str_eq(a: &str, b: &str) -> (r: bool)
    ensures
        r == (a@ == b@),
{
    let owned_a: String = a.to_owned();
    let owned_b: String = b.to_owned();
    owned_a == owned_b
}

/// Numeric value of a digit sequence read left to right, most significant
/// digit first.
pub open spec fn digit_seq_val(s: Seq<char>) -> int
    decreases s.len(),
{
    if s.len() == 0 {
        0
    } else {
        digit_seq_val(s.drop_last()) * 10 + (s.last() as int - '0' as int)
    }
}

pub open spec fn all_digits(s: Seq<char>) -> bool {
    forall|i: int| 0 <= i < s.len() ==> '0' <= #[trigger] s[i] <= '9'
}

/// What a decimal cell of the tables means: a `u8` exactly when the text is
/// one or more digits whose value fits.
pub open spec fn spec_parse_u8(s: Seq<char>) -> Option<u8> {
    if s.len() > 0 && all_digits(s) && digit_seq_val(s) <= 255 {
        Some(digit_seq_val(s) as u8)
    } else {
        None
    }
}

pub proof fn lemma_digit_seq_val_nonneg(s: Seq<char>)
    requires
        all_digits(s),
    ensures
        digit_seq_val(s) >= 0,
    decreases s.len(),
{
    if s.len() > 0 {
        assert(all_digits(s.drop_last()));
        lemma_digit_seq_val_nonneg(s.drop_last());
    }
}

/// Appending further digits never shrinks the value.
pub proof fn lemma_digit_seq_val_grows(s: Seq<char>, i: int)
    requires
        all_digits(s),
        0 <= i <= s.len(),
    ensures
        digit_seq_val(s.take(i)) <= digit_seq_val(s),
    decreases s.len() - i,
{
    if i < s.len() {
        assert(all_digits(s.take(i + 1)));
        assert(s.take(i + 1).drop_last() =~= s.take(i));
        lemma_digit_seq_val_nonneg(s.take(i));
        lemma_digit_seq_val_grows(s, i + 1);
    } else {
        assert(s.take(i) =~= s);
    }
}

/// Decimal parse of a table cell.
pub fn parse_u8(s: &str) -> (r: Option<u8>)
    ensures
        r == spec_parse_u8(s@),
{
    let n = s.unicode_len();
    if n == 0 {
        return None;
    }
    let mut acc: u32 = 0;
    let mut i: usize = 0;
    while i < n
        invariant
            0 <= i <= n,
            n == s@.len(),
            all_digits(s@.take(i as int)),
            acc == digit_seq_val(s@.take(i as int)),
            acc <= 255,
        decreases n - i,
    {
        let c = s.get_char(i);
        if c < '0' || c > '9' {
            assert(!('0' <= s@[i as int] <= '9'));
            return None;
        }
        let d: u32 = (c as u32) - ('0' as u32);
        assert(s@.take(i + 1).drop_last() =~= s@.take(i as int));
        assert(forall|j: int|
            0 <= j < i + 1 ==> s@.take(i + 1)[j] == #[trigger] s@[j]);
        if acc > 25 || (acc == 25 && d > 5) {
            proof {
                if all_digits(s@) {
                    lemma_digit_seq_val_grows(s@, i + 1);
                }
            }
            return None;
        }
        acc = acc * 10 + d;
        i = i + 1;
    }
    assert(s@.take(n as int) =~= s@);
    Some(acc as u8)
}

/// A grammar symbol is terminal when its text holds no upper-case ASCII
/// letter, the casing convention the rule set is built on.
pub open spec fn spec_all_lowercase(s: Seq<char>) -> bool {
    forall|i: int| 0 <= i < s.len() ==> !('A' <= #[trigger] s[i] <= 'Z')
}

pub fn all_lowercase(s: &str) -> (r: bool)
    ensures
        r == spec_all_lowercase(s@),
{
    let n = s.unicode_len();
    let mut i: usize = 0;
    while i < n
        invariant
            0 <= i <= n,
            n == s@.len(),
            spec_all_lowercase(s@.take(i as int)),
        decreases n - i,
    {
        let c = s.get_char(i);
        if c >= 'A' && c <= 'Z' {
            return false;
        }
        assert(s@.take(i + 1).drop_last() =~= s@.take(i as int));
        assert(forall|j: int|
            0 <= j < i + 1 ==> s@.take(i + 1)[j] == #[trigger] s@[j]);
        i = i + 1;
    }
    assert(s@.take(n as int) =~= s@);
    true
}

/// Index of the first line break in a sequence, or -1 when there is none.
pub open spec fn first_nl(s: Seq<char>) -> int
    decreases s.len(),
{
    if s.len() == 0 {
        -1
    } else if s[0] == '\n' {
        0
    } else {
        let r = first_nl(s.drop_first());
        if r < 0 {
            -1
        } else {
            r + 1
        }
    }
}

pub proof fn lemma_first_nl_bounds(s: Seq<char>)
    ensures
        -1 <= first_nl(s) < s.len(),
        first_nl(s) >= 0 ==> s[first_nl(s)] == '\n',
        first_nl(s) >= 0 ==> forall|j: int| 0 <= j < first_nl(s) ==> s[j] != '\n',
        first_nl(s) < 0 ==> forall|j: int| 0 <= j < s.len() ==> s[j] != '\n',
    decreases s.len(),
{
    if s.len() > 0 && s[0] != '\n' {
        let t = s.drop_first();
        lemma_first_nl_bounds(t);
        if first_nl(s) >= 0 {
            assert forall|j: int| 0 <= j < first_nl(s) implies s[j] != '\n' by {
                if j > 0 {
                    assert(t[j - 1] == s[j]);
                }
            }
        } else {
            assert forall|j: int| 0 <= j < s.len() implies s[j] != '\n' by {
                if j > 0 {
                    assert(t[j - 1] == s[j]);
                }
            }
        }
    }
}

/// A sequence with no line break that is followed by one: the break sits
/// exactly past the prefix.
pub proof fn lemma_first_nl_concat(p: Seq<char>, s: Seq<char>)
    requires
        forall|j: int| 0 <= j < p.len() ==> p[j] != '\n',
        s.len() > 0,
        s[0] == '\n',
    ensures
        first_nl(p + s) == p.len(),
    decreases p.len(),
{
    if p.len() == 0 {
        assert(p + s =~= s);
    } else {
        lemma_first_nl_concat(p.drop_first(), s);
        assert((p + s).drop_first() =~= p.drop_first() + s);
        assert((p + s)[0] == p[0]);
    }
}

pub proof fn lemma_first_nl_none(p: Seq<char>)
    requires
        forall|j: int| 0 <= j < p.len() ==> p[j] != '\n',
    ensures
        first_nl(p) == -1,
{
    lemma_first_nl_bounds(p);
    if first_nl(p) >= 0 {
        assert(p[first_nl(p)] == '\n');
    }
}

/// The source cut into lines, each line keeping its closing break; the last
/// line may lack one. An empty source has no lines.
pub open spec fn spec_split_lines(s: Seq<char>) -> Seq<Seq<char>>
    decreases s.len(),
    via spec_split_lines_decreases
{
    if s.len() == 0 {
        Seq::empty()
    } else {
        let n = first_nl(s);
        if n < 0 {
            seq![s]
        } else {
            seq![s.take(n + 1)] + spec_split_lines(s.skip(n + 1))
        }
    }
}

#[via_fn]
proof fn spec_split_lines_decreases(s: Seq<char>) {
    lemma_first_nl_bounds(s);
}

/// Every line the split yields is non-empty and at most as long as the
/// source.
pub proof fn lemma_split_lines_nonempty(s: Seq<char>)
    ensures
        forall|i: int|
            0 <= i < spec_split_lines(s).len() ==> (#[trigger] spec_split_lines(s)[i]).len() > 0,
    decreases s.len(),
{
    if s.len() > 0 {
        let n = first_nl(s);
        lemma_first_nl_bounds(s);
        if n >= 0 {
            lemma_split_lines_nonempty(s.skip(n + 1));
            assert forall|i: int|
                0 <= i < spec_split_lines(s).len() implies (#[trigger] spec_split_lines(
                s,
            )[i]).len() > 0 by {
                if i > 0 {
                    assert(spec_split_lines(s)[i] == spec_split_lines(s.skip(n + 1))[i - 1]);
                }
            }
        }
    }
}

/// Cut a source text into its lines.
pub fn split_lines(source: &Vec<char>) -> (r: Vec<Vec<char>>)
    ensures
        r.deep_view() == spec_split_lines(source@),
{
    let n = source.len();
    let mut lines: Vec<Vec<char>> = Vec::new();
    let mut cur: Vec<char> = Vec::new();
    let mut i: usize = 0;
    proof {
        assert(cur@ + source@.skip(0) =~= source@);
        assert(lines.deep_view() + spec_split_lines(source@) =~= spec_split_lines(source@));
    }
    while i < n
        invariant
            0 <= i <= n,
            n == source@.len(),
            forall|j: int| 0 <= j < cur@.len() ==> cur@[j] != '\n',
            spec_split_lines(source@) == lines.deep_view() + spec_split_lines(
                cur@ + source@.skip(i as int),
            ),
        decreases n - i,
    {
        let c = source[i];
        let ghost prev_cur = cur@;
        let ghost prev_dv = lines.deep_view();
        cur.push(c);
        proof {
            let rest = source@.skip(i as int);
            let rest2 = source@.skip(i + 1);
            assert(rest[0] == c && rest.drop_first() =~= rest2);
            if c == '\n' {
                lemma_first_nl_concat(prev_cur, rest);
                assert(prev_cur + rest =~= cur@ + rest2);
                assert(first_nl(cur@ + rest2) == cur@.len() - 1);
                assert((cur@ + rest2).take(cur@.len() as int) =~= cur@);
                assert((cur@ + rest2).skip(cur@.len() as int) =~= rest2);
                assert(spec_split_lines(cur@ + rest2) == seq![cur@] + spec_split_lines(rest2));
                assert(prev_dv + (seq![cur@] + spec_split_lines(rest2)) =~= (prev_dv + seq![cur@])
                    + spec_split_lines(rest2));
            } else {
                assert(cur@ + rest2 =~= prev_cur + rest);
            }
        }
        if c == '\n' {
            let ghost pushed = cur@;
            lines.push(cur);
            cur = Vec::new();
            proof {
                assert(lines.deep_view() =~~= prev_dv + seq![pushed]);
                assert(cur@ + source@.skip(i + 1) =~= source@.skip(i + 1));
            }
        }
        i = i + 1;
    }
    proof {
        assert(source@.skip(n as int) =~= Seq::<char>::empty());
        assert(cur@ + Seq::<char>::empty() =~= cur@);
        lemma_first_nl_none(cur@);
    }
    let ghost end_dv = lines.deep_view();
    if cur.len() > 0 {
        proof {
            assert(spec_split_lines(cur@) == seq![cur@]);
        }
        let ghost cur_view = cur@;
        lines.push(cur);
        proof {
            assert(lines.deep_view() =~~= end_dv + seq![cur_view]);
        }
    }
    lines
}

/// The split yields at most one line per character.
pub proof fn lemma_split_lines_count(s: Seq<char>)
    ensures
        spec_split_lines(s).len() <= s.len(),
    decreases s.len(),
{
    if s.len() > 0 {
        let n = first_nl(s);
        lemma_first_nl_bounds(s);
        if n >= 0 {
            lemma_split_lines_count(s.skip(n + 1));
        }
    }
}

/// Index of the first occurrence of `sep`, or -1 when there is none.
pub open spec fn first_sep(s: Seq<char>, sep: char) -> int
    decreases s.len(),
{
    if s.len() == 0 {
        -1
    } else if s[0] == sep {
        0
    } else {
        let r = first_sep(s.drop_first(), sep);
        if r < 0 {
            -1
        } else {
            r + 1
        }
    }
}

pub proof fn lemma_first_sep_bounds(s: Seq<char>, sep: char)
    ensures
        -1 <= first_sep(s, sep) < s.len(),
        first_sep(s, sep) >= 0 ==> s[first_sep(s, sep)] == sep,
        first_sep(s, sep) >= 0 ==> forall|j: int| 0 <= j < first_sep(s, sep) ==> s[j] != sep,
        first_sep(s, sep) < 0 ==> forall|j: int| 0 <= j < s.len() ==> s[j] != sep,
    decreases s.len(),
{
    if s.len() > 0 && s[0] != sep {
        let t = s.drop_first();
        lemma_first_sep_bounds(t, sep);
        if first_sep(s, sep) >= 0 {
            assert forall|j: int| 0 <= j < first_sep(s, sep) implies s[j] != sep by {
                if j > 0 {
                    assert(t[j - 1] == s[j]);
                }
            }
        } else {
            assert forall|j: int| 0 <= j < s.len() implies s[j] != sep by {
                if j > 0 {
                    assert(t[j - 1] == s[j]);
                }
            }
        }
    }
}

/// A separator-free prefix followed by the separator: the first hit sits
/// exactly past the prefix.
pub proof fn lemma_first_sep_concat(p: Seq<char>, s: Seq<char>, sep: char)
    requires
        forall|j: int| 0 <= j < p.len() ==> p[j] != sep,
        s.len() > 0,
        s[0] == sep,
    ensures
        first_sep(p + s, sep) == p.len(),
    decreases p.len(),
{
    if p.len() == 0 {
        assert(p + s =~= s);
    } else {
        lemma_first_sep_concat(p.drop_first(), s, sep);
        assert((p + s).drop_first() =~= p.drop_first() + s);
        assert((p + s)[0] == p[0]);
    }
}

pub proof fn lemma_first_sep_none(p: Seq<char>, sep: char)
    requires
        forall|j: int| 0 <= j < p.len() ==> p[j] != sep,
    ensures
        first_sep(p, sep) == -1,
{
    lemma_first_sep_bounds(p, sep);
    if first_sep(p, sep) >= 0 {
        assert(p[first_sep(p, sep)] == sep);
    }
}

/// The words of a rule's right-hand side: maximal space-free runs, with
/// runs of spaces swallowed.
pub open spec fn spec_split_spaces(s: Seq<char>) -> Seq<Seq<char>>
    decreases s.len(),
    via spec_split_spaces_decreases
{
    if s.len() == 0 {
        Seq::empty()
    } else if s[0] == ' ' {
        spec_split_spaces(s.drop_first())
    } else {
        let n = first_sep(s, ' ');
        if n < 0 {
            seq![s]
        } else {
            seq![s.take(n)] + spec_split_spaces(s.skip(n))
        }
    }
}

#[via_fn]
proof fn spec_split_spaces_decreases(s: Seq<char>) {
    lemma_first_sep_bounds(s, ' ');
}

/// The cells of a comma-separated line; empty cells are kept, and a line
/// always has at least one cell.
pub open spec fn spec_split_commas(s: Seq<char>) -> Seq<Seq<char>>
    decreases s.len(),
    via spec_split_commas_decreases
{
    let n = first_sep(s, ',');
    if n < 0 {
        seq![s]
    } else {
        seq![s.take(n)] + spec_split_commas(s.skip(n + 1))
    }
}

#[via_fn]
proof fn spec_split_commas_decreases(s: Seq<char>) {
    lemma_first_sep_bounds(s, ',');
}

/// Cut a rule's right-hand side at spaces.
pub fn split_spaces(s: &str) -> (r: Vec<String>)
    ensures
        r.deep_view() == spec_split_spaces(s@),
{
    let n = s.unicode_len();
    let mut words: Vec<String> = Vec::new();
    let mut cur = String::new();
    let mut cur_empty = true;
    let mut i: usize = 0;
    proof {
        assert(cur@ + s@.skip(0) =~= s@);
        assert(words.deep_view() + spec_split_spaces(s@) =~= spec_split_spaces(s@));
    }
    while i < n
        invariant
            0 <= i <= n,
            n == s@.len(),
            cur_empty == (cur@.len() == 0),
            forall|j: int| 0 <= j < cur@.len() ==> cur@[j] != ' ',
            spec_split_spaces(s@) == words.deep_view() + spec_split_spaces(
                cur@ + s@.skip(i as int),
            ),
        decreases n - i,
    {
        let c = s.get_char(i);
        let ghost prev_cur = cur@;
        let ghost prev_dv = words.deep_view();
        proof {
            let rest = s@.skip(i as int);
            let rest2 = s@.skip(i + 1);
            assert(rest[0] == c && rest.drop_first() =~= rest2);
            if c == ' ' {
                if prev_cur.len() == 0 {
                    assert(prev_cur + rest =~= rest);
                    assert(rest.drop_first() =~= rest2);
                    assert(Seq::<char>::empty() + rest2 =~= rest2);
                } else {
                    lemma_first_sep_concat(prev_cur, rest, ' ');
                    assert(first_sep(prev_cur + rest, ' ') == prev_cur.len());
                    assert((prev_cur + rest).take(prev_cur.len() as int) =~= prev_cur);
                    assert((prev_cur + rest).skip(prev_cur.len() as int) =~= rest);
                    assert(Seq::<char>::empty() + rest =~= rest);
                    assert(spec_split_spaces(prev_cur + rest) == seq![prev_cur]
                        + spec_split_spaces(rest));
                    assert(prev_dv + (seq![prev_cur] + spec_split_spaces(rest)) =~= (prev_dv
                        + seq![prev_cur]) + spec_split_spaces(rest));
                }
            } else {
                assert(cur@.push(c) + rest2 =~= prev_cur + rest);
            }
        }
        if c == ' ' {
            if !cur_empty {
                let ghost pushed = cur@;
                words.push(cur);
                cur = String::new();
                cur_empty = true;
                proof {
                    assert(words.deep_view() =~~= prev_dv + seq![pushed]);
                }
            }
        } else {
            push_char(&mut cur, c);
            cur_empty = false;
        }
        i = i + 1;
    }
    proof {
        assert(s@.skip(n as int) =~= Seq::<char>::empty());
        assert(cur@ + Seq::<char>::empty() =~= cur@);
        lemma_first_sep_none(cur@, ' ');
    }
    let ghost end_dv = words.deep_view();
    if !cur_empty {
        let ghost pushed = cur@;
        words.push(cur);
        proof {
            assert(spec_split_spaces(pushed) == seq![pushed]);
            assert(words.deep_view() =~~= end_dv + seq![pushed]);
        }
    }
    words
}

/// Cut a table line at commas, keeping empty cells.
pub fn split_commas(s: &str) -> (r: Vec<String>)
    ensures
        r.deep_view() == spec_split_commas(s@),
        r@.len() >= 1,
{
    let n = s.unicode_len();
    let mut cells: Vec<String> = Vec::new();
    let mut cur = String::new();
    let mut i: usize = 0;
    proof {
        assert(cur@ + s@.skip(0) =~= s@);
        assert(cells.deep_view() + spec_split_commas(s@) =~= spec_split_commas(s@));
    }
    while i < n
        invariant
            0 <= i <= n,
            n == s@.len(),
            forall|j: int| 0 <= j < cur@.len() ==> cur@[j] != ',',
            spec_split_commas(s@) == cells.deep_view() + spec_split_commas(
                cur@ + s@.skip(i as int),
            ),
        decreases n - i,
    {
        let c = s.get_char(i);
        let ghost prev_cur = cur@;
        let ghost prev_dv = cells.deep_view();
        proof {
            let rest = s@.skip(i as int);
            let rest2 = s@.skip(i + 1);
            assert(rest[0] == c && rest.drop_first() =~= rest2);
            if c == ',' {
                lemma_first_sep_concat(prev_cur, rest, ',');
                assert(first_sep(prev_cur + rest, ',') == prev_cur.len());
                assert((prev_cur + rest).take(prev_cur.len() as int) =~= prev_cur);
                assert((prev_cur + rest).skip((prev_cur.len() + 1) as int) =~= rest2);
                assert(spec_split_commas(prev_cur + rest) == seq![prev_cur] + spec_split_commas(
                    rest2,
                ));
                assert(prev_dv + (seq![prev_cur] + spec_split_commas(rest2)) =~= (prev_dv + seq![
                    prev_cur,
                ]) + spec_split_commas(rest2));
                assert(Seq::<char>::empty() + rest2 =~= rest2);
            } else {
                assert(cur@.push(c) + rest2 =~= prev_cur + rest);
            }
        }
        if c == ',' {
            let ghost pushed = cur@;
            cells.push(cur);
            cur = String::new();
            proof {
                assert(cells.deep_view() =~~= prev_dv + seq![pushed]);
            }
        } else {
            push_char(&mut cur, c);
        }
        i = i + 1;
    }
    proof {
        assert(s@.skip(n as int) =~= Seq::<char>::empty());
        assert(cur@ + Seq::<char>::empty() =~= cur@);
        lemma_first_sep_none(cur@, ',');
        assert(spec_split_commas(cur@) == seq![cur@]);
    }
    let ghost end_dv = cells.deep_view();
    let ghost pushed = cur@;
    cells.push(cur);
    proof {
        assert(cells.deep_view() =~~= end_dv + seq![pushed]);
    }
    cells
}

/// Relies on String::push: appends exactly the given character.
#[verifier::external_body]
pub fn push_char(s: &mut String, c: char)
    ensures
        final(s)@ == old(s)@.push(c),
{
    s.push(c);
}

} // verus!
