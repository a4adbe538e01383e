//! Quoting of arbitrary text for a double-quoted HCL string literal.
use unicode_properties::GeneralCategoryGroup;
use unicode_properties::UnicodeGeneralCategory;
use vstd::prelude::*;
use vstd::string::StrSliceExecFns;
use vstd::string::StringExecFns;

verus! {

/// The group of a character's Unicode general category.
#[derive(Clone, Copy, Debug, PartialEq, Eq, Structural)]
pub enum CategoryGroup {
    Letter,
    Mark,
    Number,
    Punctuation,
    Symbol,
    Separator,
    Other,
}

/// The general category group that the Unicode character database gives `c`.
pub uninterp spec fn category_group_of(c: char) -> CategoryGroup;

/// Relies on `UnicodeGeneralCategory::general_category_group` of
/// unicode-properties: the group is looked up in its tables for `c` alone,
/// where `{` is open punctuation.
#[verifier::external_body]
fn category_group(c: char) -> (r: CategoryGroup)
    ensures
        r == category_group_of(c),
        c == '{' ==> r == CategoryGroup::Punctuation,
{
    match c.general_category_group() {
        GeneralCategoryGroup::Letter => CategoryGroup::Letter,
        GeneralCategoryGroup::Mark => CategoryGroup::Mark,
        GeneralCategoryGroup::Number => CategoryGroup::Number,
        GeneralCategoryGroup::Punctuation => CategoryGroup::Punctuation,
        GeneralCategoryGroup::Symbol => CategoryGroup::Symbol,
        GeneralCategoryGroup::Separator => CategoryGroup::Separator,
        GeneralCategoryGroup::Other => CategoryGroup::Other,
    }
}

/// A character that may stand literally in the output: the ASCII space, or a
/// letter, mark, number, punctuation or symbol.
pub open spec fn printable(c: char) -> bool {
    printable_as(c, category_group_of(c))
}

/// Whether `c` may stand literally, were its category group `g`.
pub open spec fn printable_as(c: char, g: CategoryGroup) -> bool {
    c == ' ' || match g {
        CategoryGroup::Letter | CategoryGroup::Mark | CategoryGroup::Number
        | CategoryGroup::Punctuation | CategoryGroup::Symbol => true,
        _ => false,
    }
}

/// The lowercase hexadecimal digits, by value.
pub open spec fn hex_alphabet() -> Seq<char> {
    seq!['0', '1', '2', '3', '4', '5', '6', '7', '8', '9', 'a', 'b', 'c', 'd', 'e', 'f']
}

/// The last `n` hexadecimal digits of `v`, most significant first, zero-padded.
pub open spec fn hex_digits(v: nat, n: nat) -> Seq<char>
    decreases n,
{
    if n == 0 {
        seq![]
    } else {
        hex_digits(v / 16, (n - 1) as nat).push(hex_alphabet()[(v % 16) as int])
    }
}

/// What the character at index `i` of `s` becomes; the character after it is
/// looked at only to decide whether a template introducer is doubled.
pub open spec fn escape_at(s: Seq<char>, i: int) -> Seq<char> {
    let c = s[i];
    if c == '\n' {
        seq!['\\', 'n']
    } else if c == '\r' {
        seq!['\\', 'r']
    } else if c == '\t' {
        seq!['\\', 't']
    } else if c == '"' {
        seq!['\\', '"']
    } else if c == '\\' {
        seq!['\\', '\\']
    } else if c == '$' || c == '%' {
        if i + 1 < s.len() && s[i + 1] == '{' {
            seq![c, c]
        } else {
            seq![c]
        }
    } else if printable(c) {
        seq![c]
    } else if (c as u32) < 65536 {
        seq!['\\', 'u'] + hex_digits(code_point(c), 4)
    } else {
        seq!['\\', 'U'] + hex_digits(code_point(c), 8)
    }
}

/// The escapes of the characters of `s` from index `i` on, in order.
pub open spec fn escape_from(s: Seq<char>, i: int) -> Seq<char>
    decreases s.len() - i,
{
    if i < 0 || i >= s.len() {
        seq![]
    } else {
        escape_at(s, i) + escape_from(s, i + 1)
    }
}

/// `s` escaped for a double-quoted HCL string.
pub open spec fn escaped(s: Seq<char>) -> Seq<char> {
    escape_from(s, 0)
}

/// The value of a hexadecimal digit of either case.
pub open spec fn hex_value(c: char) -> Option<nat> {
    let v = c as u32;
    if 48 <= v <= 57 {
        Some((v - 48) as nat)
    } else if 97 <= v <= 102 {
        Some((v - 87) as nat)
    } else if 65 <= v <= 70 {
        Some((v - 55) as nat)
    } else {
        None
    }
}

/// The number that hexadecimal digits spell, most significant first.
pub open spec fn hex_number(t: Seq<char>) -> Option<nat>
    decreases t.len(),
{
    if t.len() == 0 {
        Some(0)
    } else {
        match (hex_number(t.drop_last()), hex_value(t.last())) {
            (Some(h), Some(d)) => Some(h * 16 + d),
            _ => None,
        }
    }
}

/// The code point of `c`.
pub open spec fn code_point(c: char) -> nat {
    (c as u32) as nat
}

/// A number that is the code point of some character.
pub open spec fn is_scalar(v: Option<nat>) -> bool {
    match v {
        Some(n) => exists|c: char| #[trigger] code_point(c) == n,
        None => false,
    }
}

/// The one-letter escapes of an HCL quoted string.
pub open spec fn simple_escape(e: char) -> Option<char> {
    if e == 'n' {
        Some('\n')
    } else if e == 'r' {
        Some('\r')
    } else if e == 't' {
        Some('\t')
    } else if e == '"' {
        Some('"')
    } else if e == '\\' {
        Some('\\')
    } else {
        None
    }
}

/// `c` before what `rest` reads as, if it reads as anything.
pub open spec fn cons(c: nat, rest: Option<Seq<nat>>) -> Option<Seq<nat>> {
    match rest {
        Some(r) => Some(seq![c] + r),
        None => None,
    }
}

/// The code points of the text that the body `t` of a double-quoted HCL string
/// stands for, with template sequences recognised; `None` where `t` is not a
/// plain literal (an interpolation or directive, a bad escape, a bare quote or
/// line break).
pub open spec fn unquote(t: Seq<char>) -> Option<Seq<nat>>
    decreases t.len(),
{
    if t.len() == 0 {
        Some(seq![])
    } else if t[0] == '\\' {
        if t.len() < 2 {
            None
        } else if simple_escape(t[1]) is Some {
            cons(code_point(simple_escape(t[1])->Some_0), unquote(t.subrange(2, t.len() as int)))
        } else if t[1] == 'u' && t.len() >= 6 && is_scalar(hex_number(t.subrange(2, 6))) {
            cons(hex_number(t.subrange(2, 6))->Some_0, unquote(t.subrange(6, t.len() as int)))
        } else if t[1] == 'U' && t.len() >= 10 && is_scalar(hex_number(t.subrange(2, 10))) {
            cons(hex_number(t.subrange(2, 10))->Some_0, unquote(t.subrange(10, t.len() as int)))
        } else {
            None
        }
    } else if t[0] == '$' || t[0] == '%' {
        if t.len() >= 3 && t[1] == t[0] && t[2] == '{' {
            cons(code_point(t[0]), unquote(t.subrange(2, t.len() as int)))
        } else if t.len() >= 2 && t[1] == '{' {
            None
        } else {
            cons(code_point(t[0]), unquote(t.subrange(1, t.len() as int)))
        }
    } else if t[0] == '"' || t[0] == '\n' || t[0] == '\r' {
        None
    } else {
        cons(code_point(t[0]), unquote(t.subrange(1, t.len() as int)))
    }
}

/// Sixteen to the power `n`.
pub open spec fn pow16(n: nat) -> nat
    decreases n,
{
    if n == 0 {
        1
    } else {
        16 * pow16((n - 1) as nat)
    }
}

proof fn lemma_hex_digit_value(d: nat)
    requires
        d < 16,
    ensures
        hex_value(hex_alphabet()[d as int]) == Some(d),
{
}

proof fn lemma_hex_number_of_digits(v: nat, n: nat)
    requires
        v < pow16(n),
    ensures
        hex_digits(v, n).len() == n,
        hex_number(hex_digits(v, n)) == Some(v),
    decreases n,
{
    if n == 0 {
    } else {
        let p = pow16((n - 1) as nat);
        assert(v / 16 < p) by (nonlinear_arith)
            requires
                v < 16 * p,
        ;
        lemma_hex_number_of_digits(v / 16, (n - 1) as nat);
        lemma_hex_digit_value(v % 16);
        let t = hex_digits(v, n);
        assert(t.drop_last() =~= hex_digits(v / 16, (n - 1) as nat));
    }
}

/// The code points of the characters of `s`, in order.
pub open spec fn code_points(s: Seq<char>) -> Seq<nat> {
    s.map_values(|c: char| code_point(c))
}

proof fn lemma_escape_at_first(s: Seq<char>, j: int)
    requires
        0 <= j < s.len(),
    ensures
        escape_at(s, j).len() >= 1,
        escape_at(s, j)[0] == '\\' || escape_at(s, j)[0] == s[j],
{
}

proof fn lemma_escape_from_first(s: Seq<char>, j: int)
    requires
        0 <= j < s.len(),
    ensures
        escape_from(s, j).len() >= 1,
        escape_from(s, j)[0] == '\\' || escape_from(s, j)[0] == s[j],
        escape_from(s, j) == escape_at(s, j) + escape_from(s, j + 1),
{
    lemma_escape_at_first(s, j);
}

proof fn lemma_unquote_escape_from(s: Seq<char>, i: int)
    requires
        0 <= i <= s.len(),
        printable('{'),
    ensures
        unquote(escape_from(s, i)) == Some(code_points(s.subrange(i, s.len() as int))),
    decreases s.len() - i,
{
    let n = s.len() as int;
    if i == n {
        assert(code_points(s.subrange(i, n)) =~= seq![]);
    } else {
        lemma_unquote_escape_from(s, i + 1);
        lemma_escape_from_first(s, i);
        let c = s[i];
        let e = escape_at(s, i);
        let rest = escape_from(s, i + 1);
        let t = escape_from(s, i);
        assert(t == e + rest);
        assert(code_points(s.subrange(i, n)) =~= seq![code_point(c)] + code_points(
            s.subrange(i + 1, n),
        ));
        if c == '\n' || c == '\r' || c == '\t' || c == '"' || c == '\\' {
            assert(t.subrange(2, t.len() as int) =~= rest);
        } else if c == '$' || c == '%' {
            if i + 1 < n && s[i + 1] == '{' {
                lemma_escape_from_first(s, i + 1);
                assert(escape_at(s, i + 1) == seq!['{']);
                assert(t.subrange(2, t.len() as int) =~= rest);
                assert(t[2] == '{');
            } else {
                assert(t.subrange(1, t.len() as int) =~= rest);
                if i + 1 < n {
                    lemma_escape_from_first(s, i + 1);
                    if rest[0] == c {
                        if i + 2 < n {
                            lemma_escape_from_first(s, i + 2);
                        }
                        if i + 2 < n && s[i + 2] == '{' {
                            assert(rest[1] == c);
                        } else if i + 2 < n {
                            assert(rest[1] == escape_from(s, i + 2)[0]);
                        } else {
                            assert(rest.len() == 1);
                        }
                    }
                }
            }
        } else if printable(c) {
            assert(t.subrange(1, t.len() as int) =~= rest);
        } else if (c as u32) < 65536 {
            reveal_with_fuel(pow16, 5);
            assert(pow16(4) == 65536);
            lemma_hex_number_of_digits(code_point(c), 4);
            assert(t.subrange(2, 6) =~= hex_digits(code_point(c), 4));
            assert(t.subrange(6, t.len() as int) =~= rest);
        } else {
            reveal_with_fuel(pow16, 9);
            assert(pow16(8) == 4294967296);
            lemma_hex_number_of_digits(code_point(c), 8);
            assert(t.subrange(2, 10) =~= hex_digits(code_point(c), 8));
            assert(t.subrange(10, t.len() as int) =~= rest);
        }
    }
}

/// Read back as the body of a double-quoted HCL string, with templates
/// recognised, the escape of `s` stands for `s` itself, character by
/// character. This rests on `{` being punctuation, which the Unicode
/// character database has it be.
pub proof fn lemma_escape_round_trip(s: Seq<char>)
    requires
        printable('{'),
    ensures
        unquote(escaped(s)) == Some(code_points(s)),
{
    lemma_unquote_escape_from(s, 0);
    assert(s.subrange(0, s.len() as int) =~= s);
}

fn hex_digit(d: u32) -> (r: &'static str)
    requires
        d < 16,
    ensures
        r@ == seq![hex_alphabet()[d as int]],
{
    let digits = "0123456789abcdef";
    proof {
        reveal_strlit("0123456789abcdef");
        assert(digits@ =~= hex_alphabet());
    }
    let r = digits.substring_char(d as usize, d as usize + 1);
    assert(r@ =~= seq![hex_alphabet()[d as int]]);
    r
}

fn push_hex(out: &mut String, v: u32, n: u32)
    requires
        n <= 8,
    ensures
        final(out)@ == old(out)@ + hex_digits(v as nat, n as nat),
    decreases n,
{
    if n > 0 {
        push_hex(out, v / 16, n - 1);
        out.append(hex_digit(v % 16));
        assert(final(out)@ =~= old(out)@ + hex_digits(v as nat, n as nat));
    } else {
        assert(out@ =~= old(out)@ + hex_digits(v as nat, n as nat));
    }
}

/// Reports whether `c` is printable: the ASCII space, or a character of the
/// letter, mark, number, punctuation or symbol groups.
pub fn is_printable(c: char) -> (r: bool)
    ensures
        r == printable(c),
{
    is_printable_as(c, category_group(c))
}

/// Reports whether `c`, of category group `g`, is printable: the ASCII space,
/// or any character of the letter, mark, number, punctuation or symbol groups.
pub fn is_printable_as(c: char, g: CategoryGroup) -> (r: bool)
    ensures
        r == printable_as(c, g),
{
    if c == ' ' {
        return true;
    }
    match g {
        CategoryGroup::Letter | CategoryGroup::Mark | CategoryGroup::Number
        | CategoryGroup::Punctuation | CategoryGroup::Symbol => true,
        _ => false,
    }
}

/// Escapes `s` so that it can stand between double quotes in HCL, where it
/// reads back as `s`.
pub fn escape_quoted_string(s: &str) -> (r: String)
    ensures
        r@ == escaped(s@),
        unquote(r@) == Some(code_points(s@)),
{
    // The reading back rests on `{` standing literally.
    let brace_group = category_group('{');
    proof {
        assert(printable_as('{', brace_group));
        lemma_escape_round_trip(s@);
    }
    let n = s.unicode_len();
    let mut out = String::new();
    let mut i: usize = 0;
    while i < n
        invariant
            n == s@.len(),
            i <= n,
            out@ + escape_from(s@, i as int) == escaped(s@),
        decreases n - i,
    {
        let c = s.get_char(i);
        let ghost before = out@;
        proof {
            reveal_strlit("\\n");
            reveal_strlit("\\r");
            reveal_strlit("\\t");
            reveal_strlit("\\\"");
            reveal_strlit("\\\\");
            reveal_strlit("\\u");
            reveal_strlit("\\U");
        }
        if c == '\n' {
            out.append("\\n");
            assert(out@ =~= before + escape_at(s@, i as int));
        } else if c == '\r' {
            out.append("\\r");
            assert(out@ =~= before + escape_at(s@, i as int));
        } else if c == '\t' {
            out.append("\\t");
            assert(out@ =~= before + escape_at(s@, i as int));
        } else if c == '"' {
            out.append("\\\"");
            assert(out@ =~= before + escape_at(s@, i as int));
        } else if c == '\\' {
            out.append("\\\\");
            assert(out@ =~= before + escape_at(s@, i as int));
        } else if c == '$' || c == '%' {
            let one = s.substring_char(i, i + 1);
            assert(one@ =~= seq![c]);
            out.append(one);
            if i + 1 < n && s.get_char(i + 1) == '{' {
                out.append(one);
            }
            assert(out@ =~= before + escape_at(s@, i as int));
        } else if is_printable(c) {
            let one = s.substring_char(i, i + 1);
            assert(one@ =~= seq![c]);
            out.append(one);
            assert(out@ =~= before + escape_at(s@, i as int));
        } else if (c as u32) < 65536 {
            out.append("\\u");
            push_hex(&mut out, c as u32, 4);
            assert(out@ =~= before + escape_at(s@, i as int));
        } else {
            out.append("\\U");
            push_hex(&mut out, c as u32, 8);
            assert(out@ =~= before + escape_at(s@, i as int));
        }
        assert(escape_from(s@, i as int) == escape_at(s@, i as int) + escape_from(s@, i + 1));
        assert(out@ + escape_from(s@, i + 1) =~= before + escape_from(s@, i as int));
        i = i + 1;
    }
    out
}

} // verus!
