use vstd::prelude::*;
use vstd::string::StringExecFns;

use crate::error::ApplicationError;
use crate::registry::Registry;
use crate::text::{chars_of, string_of};

verus! {

/// The longest project name, in characters.
pub const MAX_NAME_LEN: usize = 63;

/// Whether `c` may occur in a project name: a lowercase ASCII letter, an ASCII
/// digit or a dash.
pub open spec fn is_name_char(c: char) -> bool {
    ('a' <= c && c <= 'z') || ('0' <= c && c <= '9') || c == '-'
}

/// What is wrong with a project name.
pub enum NameProblem {
    Empty,
    TooLong,
    EdgeDash,
    DoubleDash,
    BadCharacter,
}

/// Whether `s` holds two dashes side by side.
pub open spec fn has_double_dash(s: Seq<char>) -> bool {
    exists|i: int| 0 <= i && i + 1 < s.len() && s[i] == '-' && #[trigger] s[i + 1] == '-'
}

/// The first rule of the name grammar that `s` breaks, if any. The rules are
/// tried in the order of the variants of `NameProblem`.
pub open spec fn name_problem(s: Seq<char>) -> Option<NameProblem> {
    if s.len() == 0 {
        Some(NameProblem::Empty)
    } else if s.len() > MAX_NAME_LEN {
        Some(NameProblem::TooLong)
    } else if s.first() == '-' || s.last() == '-' {
        Some(NameProblem::EdgeDash)
    } else if has_double_dash(s) {
        Some(NameProblem::DoubleDash)
    } else if exists|i: int| 0 <= i < s.len() && !is_name_char(#[trigger] s[i]) {
        Some(NameProblem::BadCharacter)
    } else {
        None
    }
}

/// Whether `s` is a well-formed project name.
pub open spec fn valid_name(s: Seq<char>) -> bool {
    name_problem(s) is None
}

/// The reason given to the user for each problem.
pub open spec fn problem_reason(problem: NameProblem) -> Seq<char> {
    match problem {
        NameProblem::Empty => "must not be empty"@,
        NameProblem::TooLong => "must not exceed 63 characters"@,
        NameProblem::EdgeDash => "must not start or end with a dash"@,
        NameProblem::DoubleDash => "must not contain consecutive dashes"@,
        NameProblem::BadCharacter =>
            "must only contain lowercase alphanumeric characters and dashes"@,
    }
}

/// What `validate_name` answers for a name whose characters are `s`.
pub open spec fn validation_matches(s: Seq<char>, result: Result<(), ApplicationError>) -> bool {
    match name_problem(s) {
        None => result is Ok,
        Some(problem) => result matches Err(ApplicationError::InvalidProjectName(name, reason))
            && name@ == s && reason@ == problem_reason(problem),
    }
}

fn invalid(name: &str, reason: &'static str) -> (r: Result<(), ApplicationError>)
    ensures
        r matches Err(ApplicationError::InvalidProjectName(n, why)) && n@ == name@ && why@
            == reason@,
{
    Err(ApplicationError::InvalidProjectName(String::from_str(name), reason))
}

/// The character that stands for `c` in a normalized name: letters and digits
/// of ASCII stay, capitals in lower case, and everything else becomes a dash.
pub open spec fn slug_char(c: char) -> char {
    if is_name_char(c) {
        c
    } else if 'A' <= c && c <= 'Z' {
        ((c as u8) + 32) as char
    } else {
        '-'
    }
}

/// `s` without the dashes it starts with.
pub open spec fn strip_leading_dashes(s: Seq<char>) -> Seq<char>
    decreases s.len(),
{
    if s.len() > 0 && s.first() == '-' {
        strip_leading_dashes(s.drop_first())
    } else {
        s
    }
}

/// `s` with each run of dashes shortened to one dash.
pub open spec fn collapse_dashes(s: Seq<char>) -> Seq<char>
    decreases s.len(),
{
    if s.len() == 0 {
        s
    } else {
        let head = collapse_dashes(s.drop_last());
        if s.last() == '-' && head.len() > 0 && head.last() == '-' {
            head
        } else {
            head.push(s.last())
        }
    }
}

/// `s` without its last character, where that is a dash.
pub open spec fn strip_trailing_dash(s: Seq<char>) -> Seq<char> {
    if s.len() > 0 && s.last() == '-' {
        s.drop_last()
    } else {
        s
    }
}

/// At most the first `MAX_NAME_LEN` characters of `s`.
pub open spec fn truncated(s: Seq<char>) -> Seq<char> {
    if s.len() > MAX_NAME_LEN {
        s.take(MAX_NAME_LEN as int)
    } else {
        s
    }
}

/// The normalized form of `s`: every character replaced by `slug_char`, the
/// leading dashes dropped, runs of dashes collapsed, the result cut to
/// `MAX_NAME_LEN` characters, and a dash left at its end removed.
pub open spec fn normalized(s: Seq<char>) -> Seq<char> {
    strip_trailing_dash(
        truncated(collapse_dashes(strip_leading_dashes(s.map_values(|c: char| slug_char(c))))),
    )
}

/// Whether every character of `s` may occur in a project name.
pub open spec fn all_name_chars(s: Seq<char>) -> bool {
    forall|i: int| 0 <= i < s.len() ==> is_name_char(#[trigger] s[i])
}

/// Stripping the leading dashes leaves characters of the text, and no dash at
/// the start.
pub proof fn lemma_strip_leading_dashes(s: Seq<char>)
    requires
        all_name_chars(s),
    ensures
        all_name_chars(strip_leading_dashes(s)),
        strip_leading_dashes(s).len() > 0 ==> strip_leading_dashes(s).first() != '-',
    decreases s.len(),
{
    if s.len() > 0 && s.first() == '-' {
        assert forall|i: int| 0 <= i < s.drop_first().len() implies is_name_char(
            #[trigger] s.drop_first()[i],
        ) by {
            assert(s.drop_first()[i] == s[i + 1]);
        }
        lemma_strip_leading_dashes(s.drop_first());
    }
}

/// Collapsing the runs of dashes leaves characters of the text, the same
/// first character, and no two dashes side by side.
pub proof fn lemma_collapse_dashes(s: Seq<char>)
    requires
        all_name_chars(s),
    ensures
        all_name_chars(collapse_dashes(s)),
        !has_double_dash(collapse_dashes(s)),
        collapse_dashes(s).len() <= s.len(),
        s.len() > 0 ==> collapse_dashes(s).len() > 0 && collapse_dashes(s).first() == s.first()
            && collapse_dashes(s).last() == s.last(),
    decreases s.len(),
{
    if s.len() > 0 {
        let head = collapse_dashes(s.drop_last());
        assert forall|i: int| 0 <= i < s.drop_last().len() implies is_name_char(
            #[trigger] s.drop_last()[i],
        ) by {
            assert(s.drop_last()[i] == s[i]);
        }
        lemma_collapse_dashes(s.drop_last());
        let out = collapse_dashes(s);
        if has_double_dash(out) {
            let i = choose|i: int|
                0 <= i && i + 1 < out.len() && out[i] == '-' && #[trigger] out[i + 1] == '-';
            if i + 1 < head.len() {
                assert(head[i] == '-' && head[i + 1] == '-');
            }
        }
        if s.len() > 1 {
            assert(s.drop_last().first() == s.first());
        }
    }
}

/// A normalized name is a valid name, unless it is empty.
pub proof fn lemma_normalized_is_valid(s: Seq<char>)
    ensures
        normalized(s).len() > 0 ==> valid_name(normalized(s)),
        normalized(s).len() <= MAX_NAME_LEN,
{
    let mapped = s.map_values(|c: char| slug_char(c));
    assert(all_name_chars(mapped)) by {
        assert forall|i: int| 0 <= i < mapped.len() implies is_name_char(#[trigger] mapped[i]) by {
            let c = s[i];
            if !is_name_char(c) && 'A' <= c && c <= 'Z' {
                assert('a' <= slug_char(c) && slug_char(c) <= 'z');
            }
        }
    }
    lemma_strip_leading_dashes(mapped);
    let body = strip_leading_dashes(mapped);
    lemma_collapse_dashes(body);
    let collapsed = collapse_dashes(body);
    let cut = truncated(collapsed);
    let out = strip_trailing_dash(cut);
    assert forall|i: int| 0 <= i < cut.len() implies cut[i] == collapsed[i] by {}
    assert(!has_double_dash(cut)) by {
        if has_double_dash(cut) {
            let i = choose|i: int|
                0 <= i && i + 1 < cut.len() && cut[i] == '-' && #[trigger] cut[i + 1] == '-';
            assert(collapsed[i] == '-' && collapsed[i + 1] == '-');
        }
    }
    if out.len() > 0 {
        assert forall|i: int| 0 <= i < out.len() implies out[i] == cut[i] by {}
        assert(out.first() == collapsed.first());
        assert(out.last() != '-') by {
            if cut.last() == '-' {
                let i = cut.len() - 2;
                assert(!(cut[i] == '-' && cut[i + 1] == '-'));
            }
        }
        assert(!has_double_dash(out)) by {
            if has_double_dash(out) {
                let i = choose|i: int|
                    0 <= i && i + 1 < out.len() && out[i] == '-' && #[trigger] out[i + 1] == '-';
                assert(cut[i] == '-' && cut[i + 1] == '-');
            }
        }
        assert(!exists|i: int| 0 <= i < out.len() && !is_name_char(#[trigger] out[i])) by {
            assert forall|i: int| 0 <= i < out.len() implies is_name_char(#[trigger] out[i]) by {
                assert(is_name_char(collapsed[i]));
            }
        }
    }
}

fn to_slug_char(c: char) -> (r: char)
    ensures
        r == slug_char(c),
{
    if ('a' <= c && c <= 'z') || ('0' <= c && c <= '9') || c == '-' {
        c
    } else if 'A' <= c && c <= 'Z' {
        ((c as u8) + 32) as char
    } else {
        '-'
    }
}

impl Registry {
    /// Checks `name` against the name grammar and reports the first rule it breaks.
    #[verifier::loop_isolation(false)]
    pub fn validate_name(name: &str) -> (result: Result<(), ApplicationError>)
        ensures
            validation_matches(name@, result),
            result is Ok <==> valid_name(name@),
    {
        let chars = chars_of(name);
        let n = chars.len();
        if n == 0 {
            return invalid(name, "must not be empty");
        }
        if n > MAX_NAME_LEN {
            return invalid(name, "must not exceed 63 characters");
        }
        if chars[0] == '-' || chars[n - 1] == '-' {
            return invalid(name, "must not start or end with a dash");
        }
        let mut i: usize = 0;
        while i + 1 < n
            invariant
                n == chars.len(),
                i < n,
                forall|j: int| 0 <= j < i ==> !(chars@[j] == '-' && #[trigger] chars@[j + 1] == '-'),
            decreases n - i,
        {
            if chars[i] == '-' && chars[i + 1] == '-' {
                assert(has_double_dash(name@));
                return invalid(name, "must not contain consecutive dashes");
            }
            i += 1;
        }
        let mut k: usize = 0;
        while k < n
            invariant
                n == chars.len(),
                k <= n,
                forall|j: int| 0 <= j < k ==> is_name_char(#[trigger] chars@[j]),
            decreases n - k,
        {
            let c = chars[k];
            if !(('a' <= c && c <= 'z') || ('0' <= c && c <= '9') || c == '-') {
                return invalid(
                    name,
                    "must only contain lowercase alphanumeric characters and dashes",
                );
            }
            k += 1;
        }
        Ok(())
    }

    /// Turns any text into a candidate project name.
    #[verifier::loop_isolation(false)]
    pub fn normalize_name(name: &str) -> (slug: String)
        ensures
            slug@ == normalized(name@),
            slug@.len() <= MAX_NAME_LEN,
            slug@.len() > 0 ==> valid_name(slug@),
    {
        proof {
            lemma_normalized_is_valid(name@);
        }
        let chars = chars_of(name);
        let n = chars.len();
        let ghost mapped = name@.map_values(|c: char| slug_char(c));
        let mut start: usize = 0;
        assert(mapped.skip(0) == mapped);
        while start < n && to_slug_char(chars[start]) == '-'
            invariant
                n == chars.len(),
                chars@ == name@,
                mapped == name@.map_values(|c: char| slug_char(c)),
                start <= n,
                strip_leading_dashes(mapped) == strip_leading_dashes(mapped.skip(start as int)),
            decreases n - start,
        {
            assert(mapped.skip(start as int).drop_first() == mapped.skip(start as int + 1));
            start += 1;
        }
        let ghost body = mapped.skip(start as int);
        assert(strip_leading_dashes(mapped) == body);
        let mut out: Vec<char> = Vec::new();
        let mut i: usize = start;
        while i < n
            invariant
                n == chars.len(),
                chars@ == name@,
                mapped == name@.map_values(|c: char| slug_char(c)),
                body == mapped.skip(start as int),
                start <= i <= n,
                out@ == collapse_dashes(body.take(i - start)),
            decreases n - i,
        {
            let c = to_slug_char(chars[i]);
            let ghost prefix = body.take(i - start + 1);
            assert(prefix.drop_last() == body.take(i - start));
            assert(prefix.last() == c);
            let len = out.len();
            if !(c == '-' && len > 0 && out[len - 1] == '-') {
                out.push(c);
            }
            i += 1;
        }
        assert(body.take(n - start) == body);
        if out.len() > MAX_NAME_LEN {
            out.truncate(MAX_NAME_LEN);
        }
        let len = out.len();
        if len > 0 && out[len - 1] == '-' {
            out.pop();
        }
        string_of(&out)
    }
}

} // verus!
