//! Identifier sanitization: turning raw, externally supplied names into
//! valid identifier tokens for generated code.

use vstd::prelude::*;
use vstd::string::*;

verus! {

// The identifier token types of the token library, carried through opaquely.
#[verifier::external_type_specification]
#[verifier::external_body]
pub struct ExIdent(proc_macro2::Ident);

#[verifier::external_type_specification]
#[verifier::external_body]
pub struct ExTokenStream(proc_macro2::TokenStream);

/// The snake-cased form of `s`, as the case-conversion library computes it:
/// a deterministic function of the characters alone.
pub uninterp spec fn snake_of(s: Seq<char>) -> Seq<char>;

/// Whether `s` parses as a standalone bare identifier token: it must
/// tokenize to a single identifier that is neither a reserved keyword nor a
/// lone underscore.
pub uninterp spec fn bare_ident_ok(s: Seq<char>) -> bool;

pub open spec fn is_ascii_alpha(c: char) -> bool {
    (97 <= c as u32 && c as u32 <= 122) || (65 <= c as u32 && c as u32 <= 90)
}

pub open spec fn is_ascii_digit(c: char) -> bool {
    48 <= c as u32 && c as u32 <= 57
}

pub open spec fn is_ascii_ident_continue(c: char) -> bool {
    c == '_' || is_ascii_alpha(c) || is_ascii_digit(c)
}

/// A conservative, ASCII-only identifier shape: a letter or underscore
/// followed by letters, digits and underscores. Every such string is a valid
/// identifier text (keywords included).
pub open spec fn ascii_ident_shaped(s: Seq<char>) -> bool {
    &&& s.len() > 0
    &&& (s[0] == '_' || is_ascii_alpha(s[0]))
    &&& forall|i: int| 1 <= i < s.len() ==> is_ascii_ident_continue(#[trigger] s[i])
}

/// `s` with a trailing underscore appended, the escape for keyword
/// collisions.
pub open spec fn escaped(s: Seq<char>) -> Seq<char> {
    s.push('_')
}

/// The decimal digit characters of `n`, most significant first.
pub open spec fn decimal_digits(n: nat) -> Seq<char>
    decreases n,
{
    if n < 10 {
        seq![digit_char(n)]
    } else {
        decimal_digits(n / 10).push(digit_char(n % 10))
    }
}

pub open spec fn digit_char(d: nat) -> char {
    if d == 0 { '0' }
    else if d == 1 { '1' }
    else if d == 2 { '2' }
    else if d == 3 { '3' }
    else if d == 4 { '4' }
    else if d == 5 { '5' }
    else if d == 6 { '6' }
    else if d == 7 { '7' }
    else if d == 8 { '8' }
    else { '9' }
}

/// The placeholder name for an absent raw name at position `index`.
pub open spec fn placeholder(index: nat) -> Seq<char> {
    seq!['p'] + decimal_digits(index)
}

/// The sanitized base name before keyword escaping: a positional
/// placeholder when the raw name is empty, its snake-cased form otherwise.
pub open spec fn sanitized(index: nat, name: Seq<char>) -> Seq<char> {
    if name.len() == 0 {
        placeholder(index)
    } else {
        snake_of(name)
    }
}

/// The identifier token text for a raw input name: the sanitized base name,
/// with a trailing underscore appended when the base collides with a
/// reserved keyword (or is otherwise not a bare identifier).
pub open spec fn identifier_token(index: nat, name: Seq<char>) -> Seq<char> {
    if bare_ident_ok(sanitized(index, name)) {
        sanitized(index, name)
    } else {
        escaped(sanitized(index, name))
    }
}

/// Relies on the case-conversion library's `to_snake_case`: the result
/// depends on the input characters alone.
#[verifier::external_body]
fn to_snake(name: &str) -> (r: String)
    ensures
        r@ == snake_of(name@),
{
    inflector::cases::snakecase::to_snake_case(name)
}

/// Relies on `syn::parse_str::<proc_macro2::Ident>`: it succeeds exactly
/// when the text parses as a single bare identifier token, rejecting
/// reserved keywords and the lone underscore.
#[verifier::external_body]
fn parse_ident(name: &str) -> (r: Option<proc_macro2::Ident>)
    ensures
        (r is Some) <==> bare_ident_ok(name@),
{
    syn::parse_str::<proc_macro2::Ident>(name).ok()
}

/// Relies on `proc_macro2::Ident::new` and `Span::call_site`. `Ident::new`
/// accepts every ASCII identifier-shaped string (keywords included); its
/// full domain, Unicode XID identifiers, is wider, and it panics outside
/// that domain, so callers stay within the ASCII shape stated here.
#[verifier::external_body]
pub fn ident(name: &str) -> proc_macro2::Ident
    requires
        ascii_ident_shaped(name@),
{
    proc_macro2::Ident::new(name, proc_macro2::Span::call_site())
}

/// Relies on `proc_macro2::TokenStream::from`: wraps the one identifier
/// token as a token stream.
#[verifier::external_body]
fn ident_tokens(i: proc_macro2::Ident) -> proc_macro2::TokenStream {
    proc_macro2::TokenStream::from(proc_macro2::TokenTree::Ident(i))
}

fn digit_str(d: u8) -> (r: &'static str)
    requires
        d < 10,
    ensures
        r@ == seq![digit_char(d as nat)],
{
    proof {
        reveal_strlit("0");
        reveal_strlit("1");
        reveal_strlit("2");
        reveal_strlit("3");
        reveal_strlit("4");
        reveal_strlit("5");
        reveal_strlit("6");
        reveal_strlit("7");
        reveal_strlit("8");
        reveal_strlit("9");
    }
    if d == 0 { "0" }
    else if d == 1 { "1" }
    else if d == 2 { "2" }
    else if d == 3 { "3" }
    else if d == 4 { "4" }
    else if d == 5 { "5" }
    else if d == 6 { "6" }
    else if d == 7 { "7" }
    else if d == 8 { "8" }
    else { "9" }
}

fn push_decimal(n: usize, out: &mut String)
    ensures
        final(out)@ == old(out)@ + decimal_digits(n as nat),
    decreases n,
{
    if n >= 10 {
        assert(n / 10 < n);
        push_decimal(n / 10, out);
    }
    let d = (n % 10) as u8;
    out.append(digit_str(d));
    proof {
        if n >= 10 {
            assert(decimal_digits(n as nat) =~= decimal_digits(n as nat / 10) + seq![
                digit_char(n as nat % 10),
            ]);
        }
        assert(out@ =~= old(out)@ + decimal_digits(n as nat));
    }
}

fn placeholder_name(index: usize) -> (r: String)
    ensures
        r@ == placeholder(index as nat),
{
    proof {
        reveal_strlit("p");
    }
    let mut r = String::from_str("p");
    push_decimal(index, &mut r);
    proof {
        assert(r@ =~= placeholder(index as nat));
    }
    r
}

fn is_ascii_ident_shaped_str(s: &str) -> (r: bool)
    ensures
        r == ascii_ident_shaped(s@),
{
    let len = s.unicode_len();
    if len == 0 {
        return false;
    }
    let c0 = s.get_char(0);
    let v0 = c0 as u32;
    if !(c0 == '_' || (97 <= v0 && v0 <= 122) || (65 <= v0 && v0 <= 90)) {
        return false;
    }
    let mut i: usize = 1;
    while i < len
        invariant
            1 <= i <= len,
            len == s@.len(),
            s@[0] == '_' || is_ascii_alpha(s@[0]),
            forall|j: int| 1 <= j < i ==> is_ascii_ident_continue(#[trigger] s@[j]),
        decreases len - i,
    {
        let c = s.get_char(i);
        let v = c as u32;
        if !(c == '_' || (97 <= v && v <= 122) || (65 <= v && v <= 90) || (48 <= v && v <= 57)) {
            return false;
        }
        i = i + 1;
    }
    true
}

/// Builds the identifier token for `name`, which must be ASCII
/// identifier-shaped; `try_ident` is the total variant that checks the
/// shape first.
pub fn try_ident(name: &str) -> (r: Option<proc_macro2::Ident>)
    ensures
        (r is Some) <==> ascii_ident_shaped(name@),
{
    if is_ascii_ident_shaped_str(name) {
        Some(ident(name))
    } else {
        None
    }
}

/// Parses `name` as a bare identifier token, appending `_` when the name is
/// a reserved keyword (parsing keywords like `self` fails, and the
/// underscore disambiguates).
pub fn safe_ident(name: &str) -> (r: proc_macro2::Ident)
    requires
        bare_ident_ok(name@) || bare_ident_ok(escaped(name@)),
{
    match parse_ident(name) {
        Some(i) => i,
        None => {
            let esc = String::from_str(name).concat("_");
            proof {
                reveal_strlit("_");
                assert(esc@ =~= escaped(name@));
            }
            parse_ident(esc.as_str()).unwrap()
        },
    }
}

/// Total variant of `safe_ident`: `None` when neither the name nor its
/// underscore-escaped form is a bare identifier token.
pub fn try_safe_ident(name: &str) -> (r: Option<proc_macro2::Ident>)
    ensures
        (r is Some) <==> (bare_ident_ok(name@) || bare_ident_ok(escaped(name@))),
{
    match parse_ident(name) {
        Some(_) => Some(safe_ident(name)),
        None => {
            let esc = String::from_str(name).concat("_");
            proof {
                reveal_strlit("_");
                assert(esc@ =~= escaped(name@));
            }
            match parse_ident(esc.as_str()) {
                Some(_) => Some(safe_ident(name)),
                None => None,
            }
        },
    }
}

/// The sanitized identifier text for a positional input name: an empty name
/// becomes a positional placeholder, any other name is snake-cased, and a
/// keyword collision gets a trailing underscore. Total: every input yields
/// a token text.
pub fn to_identifier(index: usize, name: &str) -> (r: String)
    ensures
        r@ == identifier_token(index as nat, name@),
{
    let base = if name.unicode_len() == 0 {
        placeholder_name(index)
    } else {
        to_snake(name)
    };
    match parse_ident(base.as_str()) {
        Some(_) => base,
        None => {
            let esc = base.concat("_");
            proof {
                reveal_strlit("_");
                assert(esc@ =~= escaped(sanitized(index as nat, name@)));
            }
            esc
        },
    }
}

/// Expands a positional input name into an identifier token stream, the
/// name sanitized as `to_identifier` says; `None` when even the escaped
/// form is not a bare identifier token.
pub fn expand_input_name(index: usize, name: &str) -> (r: Option<proc_macro2::TokenStream>)
    ensures
        (r is Some) <==> (bare_ident_ok(sanitized(index as nat, name@)) || bare_ident_ok(
            escaped(sanitized(index as nat, name@)),
        )),
{
    let base = if name.unicode_len() == 0 {
        placeholder_name(index)
    } else {
        to_snake(name)
    };
    match try_safe_ident(base.as_str()) {
        Some(i) => Some(ident_tokens(i)),
        None => None,
    }
}

/// Number of consecutive `'_'` characters at the start of `s`.
pub open spec fn leading_underscores(s: Seq<char>) -> nat
    decreases s.len(),
{
    if s.len() > 0 && s[0] == '_' {
        1 + leading_underscores(s.drop_first())
    } else {
        0
    }
}

/// Number of consecutive `'_'` characters at the end of `s`.
pub open spec fn trailing_underscores(s: Seq<char>) -> nat
    decreases s.len(),
{
    if s.len() > 0 && s[s.len() - 1] == '_' {
        1 + trailing_underscores(s.drop_last())
    } else {
        0
    }
}

/// A run of `n` underscores.
pub open spec fn underscores(n: nat) -> Seq<char> {
    Seq::new(n, |i: int| '_')
}

/// The underscore fencing rule: the leading and the trailing underscore run
/// of `alias` are reapplied around `ident`.
pub open spec fn fenced(ident: Seq<char>, alias: Seq<char>) -> Seq<char> {
    underscores(leading_underscores(alias)) + ident + underscores(trailing_underscores(alias))
}

proof fn lemma_leading_underscores_from_index(s: Seq<char>, i: int)
    requires
        0 <= i <= s.len(),
        forall|j: int| 0 <= j < i ==> s[j] == '_',
        i == s.len() || s[i] != '_',
    ensures
        leading_underscores(s) == i,
    decreases i,
{
    if i > 0 {
        assert(s.drop_first().len() == s.len() - 1);
        assert(forall|j: int| 0 <= j < i - 1 ==> s.drop_first()[j] == s[j + 1]);
        lemma_leading_underscores_from_index(s.drop_first(), i - 1);
    }
}

proof fn lemma_trailing_underscores_from_index(s: Seq<char>, k: int)
    requires
        0 <= k <= s.len(),
        forall|j: int| s.len() - k <= j < s.len() ==> s[j] == '_',
        k == s.len() || s[s.len() - k - 1] != '_',
    ensures
        trailing_underscores(s) == k,
    decreases k,
{
    if k > 0 {
        assert(s.drop_last().len() == s.len() - 1);
        assert(forall|j: int| 0 <= j < s.len() - 1 ==> s.drop_last()[j] == s[j]);
        lemma_trailing_underscores_from_index(s.drop_last(), k - 1);
    }
}

/// The fencing round trip: when the alias consists of a leading underscore
/// fence, a core that neither starts nor ends with an underscore, and a
/// trailing underscore fence, fencing an identifier with that alias
/// reapplies exactly those two fences around the identifier.
pub proof fn lemma_fencing_round_trip(ident: Seq<char>, lead: nat, core: Seq<char>, trail: nat)
    requires
        core.len() > 0,
        core[0] != '_',
        core[core.len() - 1] != '_',
    ensures
        fenced(ident, underscores(lead) + core + underscores(trail)) == underscores(lead) + ident
            + underscores(trail),
{
    let alias = underscores(lead) + core + underscores(trail);
    assert(alias.len() == lead + core.len() + trail);
    assert(forall|j: int| 0 <= j < lead ==> alias[j] == '_');
    assert(alias[lead as int] == core[0]);
    lemma_leading_underscores_from_index(alias, lead as int);
    assert(forall|j: int| alias.len() - trail <= j < alias.len() ==> alias[j] == '_');
    assert(alias[alias.len() - trail - 1] == core[core.len() - 1]);
    lemma_trailing_underscores_from_index(alias, trail as int);
}

fn count_leading_underscores(s: &str) -> (n: usize)
    ensures
        n == leading_underscores(s@),
        n <= s@.len(),
        forall|j: int| 0 <= j < n ==> s@[j] == '_',
{
    let len = s.unicode_len();
    let mut i: usize = 0;
    while i < len && s.get_char(i) == '_'
        invariant
            i <= len,
            len == s@.len(),
            forall|j: int| 0 <= j < i ==> s@[j] == '_',
        decreases len - i,
    {
        i = i + 1;
    }
    proof {
        lemma_leading_underscores_from_index(s@, i as int);
    }
    i
}

fn count_trailing_underscores(s: &str) -> (n: usize)
    ensures
        n == trailing_underscores(s@),
        n <= s@.len(),
        forall|j: int| s@.len() - n <= j < s@.len() ==> s@[j] == '_',
{
    let len = s.unicode_len();
    let mut i: usize = 0;
    while i < len && s.get_char(len - 1 - i) == '_'
        invariant
            i <= len,
            len == s@.len(),
            forall|j: int| s@.len() - i <= j < s@.len() ==> s@[j] == '_',
        decreases len - i,
    {
        i = i + 1;
    }
    proof {
        lemma_trailing_underscores_from_index(s@, i as int);
    }
    i
}

/// Reapplies the leading and trailing underscore runs of `alias` around
/// `ident`, so that stylistic underscore fencing survives case conversion.
pub fn preserve_underscore_delim(ident: &str, alias: &str) -> (r: String)
    ensures
        r@ == fenced(ident@, alias@),
{
    let len = alias.unicode_len();
    let lead = count_leading_underscores(alias);
    let trail = count_trailing_underscores(alias);
    let prefix = alias.substring_char(0, lead);
    let suffix = alias.substring_char(len - trail, len);
    let mut r = String::from_str(prefix);
    r.append(ident);
    r.append(suffix);
    proof {
        assert(prefix@ =~= underscores(leading_underscores(alias@)));
        assert(suffix@ =~= underscores(trailing_underscores(alias@)));
        assert(r@ =~= fenced(ident@, alias@));
    }
    r
}

} // verus!
