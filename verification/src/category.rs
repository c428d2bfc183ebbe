//! The rules of categories: which colors are accepted, and what adding a
//! category or importing one from a manifest decides.
use crate::config::CategoryConfig;
use crate::error::{agrees, fails_as, ArcaneError};
use crate::models::Category;
use crate::text::{
    all_white_space, ascii_upper,
    lemma_lowercase_ignores_ascii_case, lemma_trim_ascii_upper,
    lemma_trim_ignores_surrounding, chars_of, concat3, lowercase_of, parse_unsigned, parse_unsigned_spec, text_equal,
    to_lowercase, trim, trim_spec, is_white_space, trim_start_spec, trim_end_spec, is_ascii_text,
    ascii_lower_char,
};
use vstd::prelude::*;

verus! {

/// The sixteen color names of the terminal palette.
pub open spec fn is_named_color(t: Seq<char>) -> bool {
    ||| t == "black"@
    ||| t == "red"@
    ||| t == "green"@
    ||| t == "yellow"@
    ||| t == "blue"@
    ||| t == "magenta"@
    ||| t == "cyan"@
    ||| t == "gray"@
    ||| t == "darkgray"@
    ||| t == "lightred"@
    ||| t == "lightgreen"@
    ||| t == "lightyellow"@
    ||| t == "lightblue"@
    ||| t == "lightmagenta"@
    ||| t == "lightcyan"@
    ||| t == "white"@
}

pub open spec fn is_ascii_hex_digit(c: char) -> bool {
    ('0' <= c && c <= '9') || ('a' <= c && c <= 'f') || ('A' <= c && c <= 'F')
}

/// The text after one leading `#`, if there is one.
pub open spec fn hex_body(t: Seq<char>) -> Seq<char> {
    if t.len() > 0 && t[0] == '#' {
        t.drop_first()
    } else {
        t
    }
}

/// Three or six hexadecimal digits.
pub open spec fn is_hex_color_body(b: Seq<char>) -> bool {
    &&& (b.len() == 3 || b.len() == 6)
    &&& forall|i: int| 0 <= i < b.len() ==> is_ascii_hex_digit(#[trigger] b[i])
}

pub open spec fn invalid_color_message() -> Seq<char> {
    "Color must be a valid HEX code (with or without '#'), an ANSI integer (0-255), or one of the named colors: [\"black\", \"red\", \"green\", \"yellow\", \"blue\", \"magenta\", \"cyan\", \"gray\", \"darkgray\", \"lightred\", \"lightgreen\", \"lightyellow\", \"lightblue\", \"lightmagenta\", \"lightcyan\", \"white\"]"@
}

/// What `validate_color` decides: after trimming and lowercasing, the color
/// must be a palette name, an ANSI number 0-255, or a hex code of three or six
/// digits with or without `#`.
pub open spec fn color_spec(color: Seq<char>) -> Result<(), Seq<char>> {
    let t = lowercase_of(trim_spec(color));
    if t.len() == 0 {
        Err("Color cannot be empty"@)
    } else if is_named_color(t) || parse_unsigned_spec(t, 255) is Some || is_hex_color_body(
        hex_body(t),
    ) {
        Ok(())
    } else {
        Err(invalid_color_message())
    }
}

fn named_color(t: &str) -> (r: bool)
    ensures
        r == is_named_color(t@),
{
    text_equal(t, "black") || text_equal(t, "red") || text_equal(t, "green") || text_equal(
        t,
        "yellow",
    ) || text_equal(t, "blue") || text_equal(t, "magenta") || text_equal(t, "cyan") || text_equal(
        t,
        "gray",
    ) || text_equal(t, "darkgray") || text_equal(t, "lightred") || text_equal(t, "lightgreen")
        || text_equal(t, "lightyellow") || text_equal(t, "lightblue") || text_equal(
        t,
        "lightmagenta",
    ) || text_equal(t, "lightcyan") || text_equal(t, "white")
}

fn hex_color(t: &str) -> (r: bool)
    ensures
        r == is_hex_color_body(hex_body(t@)),
{
    let cs = chars_of(t);
    let n = cs.len();
    let start: usize = if n > 0 && cs[0] == '#' {
        1
    } else {
        0
    };
    let ghost b = hex_body(t@);
    assert(b =~= t@.subrange(start as int, n as int));
    let len = n - start;
    if len != 3 && len != 6 {
        return false;
    }
    let mut i: usize = start;
    while i < n
        invariant
            cs@ == t@,
            n == t@.len(),
            start <= i <= n,
            b == t@.subrange(start as int, n as int),
            b == hex_body(t@),
            forall|j: int| 0 <= j < i - start ==> is_ascii_hex_digit(#[trigger] b[j]),
        decreases n - i,
    {
        let c = cs[i];
        if !(('0' <= c && c <= '9') || ('a' <= c && c <= 'f') || ('A' <= c && c <= 'F')) {
            assert(b[i - start] == c);
            return false;
        }
        i = i + 1;
    }
    true
}

/// Accepts a palette color name, an ANSI color number (0-255) or a hex code
/// of three or six digits with or without `#`, ignoring case and
/// surrounding whitespace.
pub fn validate_color(color: &str) -> (r: Result<(), ArcaneError>)
    ensures
        agrees(r, color_spec(color@)),
{
    let lowered = to_lowercase(trim(color));
    let t = lowered.as_str();
    if t.unicode_len() == 0 {
        return Err(ArcaneError::CategoryValidation(String::from_str("Color cannot be empty")));
    }
    if named_color(t) {
        return Ok(());
    }
    if parse_unsigned(t, 255).is_some() {
        return Ok(());
    }
    if hex_color(t) {
        return Ok(());
    }
    Err(
        ArcaneError::CategoryValidation(
            String::from_str(
                "Color must be a valid HEX code (with or without '#'), an ANSI integer (0-255), or one of the named colors: [\"black\", \"red\", \"green\", \"yellow\", \"blue\", \"magenta\", \"cyan\", \"gray\", \"darkgray\", \"lightred\", \"lightgreen\", \"lightyellow\", \"lightblue\", \"lightmagenta\", \"lightcyan\", \"white\"]",
            ),
        ),
    )
}

/// Whitespace around a color does not change whether it is accepted.
pub proof fn lemma_color_ignores_surrounding_whitespace(w1: Seq<char>, c: Seq<char>, w2: Seq<char>)
    requires
        all_white_space(w1),
        all_white_space(w2),
    ensures
        color_spec(w1 + c + w2) == color_spec(c),
{
    lemma_trim_ignores_surrounding(w1, c, w2);
}

/// The case of the ASCII letters of a color does not change whether it is
/// accepted.
pub proof fn lemma_color_ignores_ascii_case(c: Seq<char>)
    ensures
        color_spec(ascii_upper(c)) == color_spec(c),
{
    lemma_trim_ascii_upper(c);
    lemma_lowercase_ignores_ascii_case(trim_spec(c));
}

/// A word of lowercase letters is its own trimmed, lowercased form.
proof fn lemma_named_color_is_lower_and_plain(n: Seq<char>)
    requires
        n.len() > 0,
        forall|k: int| 0 <= k < n.len() ==> 'a' <= #[trigger] n[k] <= 'z',
    ensures
        lowercase_of(trim_spec(n)) == n,
{
    assert(!is_white_space(n[0]));
    assert(!is_white_space(n.last()));
    assert(trim_start_spec(n) == n);
    assert(trim_end_spec(n) == n);
    assert(is_ascii_text(n));
    assert(n.map_values(|c: char| ascii_lower_char(c)) =~= n);
}

/// The palette names that the refusal of a color offers, in its order.
pub open spec fn offered_color_names() -> Seq<Seq<char>> {
    seq![
        "black"@, "red"@, "green"@, "yellow"@, "blue"@, "magenta"@, "cyan"@, "gray"@,
        "darkgray"@, "lightred"@, "lightgreen"@, "lightyellow"@, "lightblue"@,
        "lightmagenta"@, "lightcyan"@, "white"@,
    ]
}

/// Names written as a list: each in double quotes, separated by `, `.
pub open spec fn quoted_list(names: Seq<Seq<char>>) -> Seq<char>
    decreases names.len(),
{
    if names.len() == 0 {
        Seq::empty()
    } else if names.len() == 1 {
        "\""@ + names[0] + "\""@
    } else {
        "\""@ + names[0] + "\", "@ + quoted_list(names.drop_first())
    }
}

/// Every color name that the refusal of a color offers is accepted, in any
/// ASCII letter case and with any whitespace around it.
pub proof fn lemma_offered_colors_accepted(i: int, w1: Seq<char>, w2: Seq<char>)
    requires
        0 <= i < offered_color_names().len(),
        all_white_space(w1),
        all_white_space(w2),
    ensures
        color_spec(w1 + ascii_upper(offered_color_names()[i]) + w2) == Ok::<(), Seq<char>>(()),
{
    let n = offered_color_names()[i];
    lemma_color_ignores_surrounding_whitespace(w1, ascii_upper(n), w2);
    lemma_color_ignores_ascii_case(n);
    if i == 0 {
        reveal_strlit("black");
        assert(n == "black"@);
        lemma_named_color_is_lower_and_plain(n);
    } else if i == 1 {
        reveal_strlit("red");
        assert(n == "red"@);
        lemma_named_color_is_lower_and_plain(n);
    } else if i == 2 {
        reveal_strlit("green");
        assert(n == "green"@);
        lemma_named_color_is_lower_and_plain(n);
    } else if i == 3 {
        reveal_strlit("yellow");
        assert(n == "yellow"@);
        lemma_named_color_is_lower_and_plain(n);
    } else if i == 4 {
        reveal_strlit("blue");
        assert(n == "blue"@);
        lemma_named_color_is_lower_and_plain(n);
    } else if i == 5 {
        reveal_strlit("magenta");
        assert(n == "magenta"@);
        lemma_named_color_is_lower_and_plain(n);
    } else if i == 6 {
        reveal_strlit("cyan");
        assert(n == "cyan"@);
        lemma_named_color_is_lower_and_plain(n);
    } else if i == 7 {
        reveal_strlit("gray");
        assert(n == "gray"@);
        lemma_named_color_is_lower_and_plain(n);
    } else if i == 8 {
        reveal_strlit("darkgray");
        assert(n == "darkgray"@);
        lemma_named_color_is_lower_and_plain(n);
    } else if i == 9 {
        reveal_strlit("lightred");
        assert(n == "lightred"@);
        lemma_named_color_is_lower_and_plain(n);
    } else if i == 10 {
        reveal_strlit("lightgreen");
        assert(n == "lightgreen"@);
        lemma_named_color_is_lower_and_plain(n);
    } else if i == 11 {
        reveal_strlit("lightyellow");
        assert(n == "lightyellow"@);
        lemma_named_color_is_lower_and_plain(n);
    } else if i == 12 {
        reveal_strlit("lightblue");
        assert(n == "lightblue"@);
        lemma_named_color_is_lower_and_plain(n);
    } else if i == 13 {
        reveal_strlit("lightmagenta");
        assert(n == "lightmagenta"@);
        lemma_named_color_is_lower_and_plain(n);
    } else if i == 14 {
        reveal_strlit("lightcyan");
        assert(n == "lightcyan"@);
        lemma_named_color_is_lower_and_plain(n);
    } else if i == 15 {
        reveal_strlit("white");
        assert(n == "white"@);
        lemma_named_color_is_lower_and_plain(n);
    }
    assert(is_named_color(n));
}

/// The refusal of a color offers exactly the names of
/// `offered_color_names`, in that order, as a bracketed list at its end.
pub proof fn lemma_refusal_lists_offered_colors()
    ensures
        invalid_color_message() == "Color must be a valid HEX code (with or without '#'), an ANSI integer (0-255), or one of the named colors: ["@ + quoted_list(offered_color_names()) + "]"@,
{
    reveal_with_fuel(quoted_list, 17);
    reveal_strlit("black");
    reveal_strlit("red");
    reveal_strlit("green");
    reveal_strlit("yellow");
    reveal_strlit("blue");
    reveal_strlit("magenta");
    reveal_strlit("cyan");
    reveal_strlit("gray");
    reveal_strlit("darkgray");
    reveal_strlit("lightred");
    reveal_strlit("lightgreen");
    reveal_strlit("lightyellow");
    reveal_strlit("lightblue");
    reveal_strlit("lightmagenta");
    reveal_strlit("lightcyan");
    reveal_strlit("white");
    reveal_strlit("\"");
    reveal_strlit("\", ");
    reveal_strlit("]");
    reveal_strlit("Color must be a valid HEX code (with or without '#'), an ANSI integer (0-255), or one of the named colors: [");
    reveal_strlit("Color must be a valid HEX code (with or without '#'), an ANSI integer (0-255), or one of the named colors: [\"black\", \"red\", \"green\", \"yellow\", \"blue\", \"magenta\", \"cyan\", \"gray\", \"darkgray\", \"lightred\", \"lightgreen\", \"lightyellow\", \"lightblue\", \"lightmagenta\", \"lightcyan\", \"white\"]");
    assert(invalid_color_message() =~= "Color must be a valid HEX code (with or without '#'), an ANSI integer (0-255), or one of the named colors: ["@ + quoted_list(offered_color_names()) + "]"@);
}

/// What adding a category decides, given whether a category of the trimmed
/// name already exists: the trimmed name to store, or why it is refused.
pub open spec fn new_category_spec(name: Seq<char>, color: Seq<char>, name_taken: bool) -> Result<
    Seq<char>,
    Seq<char>,
> {
    let n = trim_spec(name);
    if n.len() == 0 {
        Err("Category name cannot be empty"@)
    } else if name_taken {
        Err("Category name '"@ + n + "' already exists"@)
    } else {
        match color_spec(color) {
            Err(m) => Err(m),
            Ok(_) => Ok(n),
        }
    }
}

/// The decisions of adding a category, once it is known whether a category
/// of the trimmed name exists: the name must not be blank nor taken, the
/// color must be valid. Gives the trimmed name to store.
pub fn check_new_category(category: &Category, name_taken: bool) -> (r: Result<String, ArcaneError>)
    ensures
        fails_as(r, new_category_spec(category.name@, category.color@, name_taken)),
        r matches Ok(n) ==> new_category_spec(category.name@, category.color@, name_taken) == Ok::<
            Seq<char>,
            Seq<char>,
        >(n@),
{
    let trimmed = trim(category.name.as_str());
    if trimmed.unicode_len() == 0 {
        return Err(
            ArcaneError::CategoryValidation(String::from_str("Category name cannot be empty")),
        );
    }
    if name_taken {
        return Err(
            ArcaneError::CategoryValidation(
                concat3("Category name '", trimmed, "' already exists"),
            ),
        );
    }
    match validate_color(category.color.as_str()) {
        Err(e) => {
            return Err(e);
        },
        Ok(()) => {},
    }
    Ok(String::from_str(trimmed))
}

/// What importing a category writes: an archived category of that name is
/// restored and updated, an active one updated, otherwise a new one inserted.
#[derive(Clone, Copy, Debug, PartialEq, Eq)]
pub enum CategoryWrite {
    Restore { id: i64 },
    Update { id: i64 },
    Insert,
}

/// What importing a category decides, given the id and archived flag of the
/// category of the trimmed name, if one exists.
pub open spec fn import_category_spec(
    name: Seq<char>,
    color: Seq<char>,
    existing: Option<(i64, bool)>,
) -> Result<CategoryWrite, Seq<char>> {
    if trim_spec(name).len() == 0 {
        Err("Category name cannot be empty"@)
    } else {
        match color_spec(color) {
            Err(m) => Err(m),
            Ok(_) => match existing {
                Some((id, true)) => Ok(CategoryWrite::Restore { id }),
                Some((id, false)) => Ok(CategoryWrite::Update { id }),
                None => Ok(CategoryWrite::Insert),
            },
        }
    }
}

/// The decisions of importing one category of a manifest.
pub fn plan_import_category(cat: &CategoryConfig, existing: Option<(i64, bool)>) -> (r: Result<
    CategoryWrite,
    ArcaneError,
>)
    ensures
        agrees(r, import_category_spec(cat.name@, cat.color@, existing)),
{
    let trimmed = trim(cat.name.as_str());
    if trimmed.unicode_len() == 0 {
        return Err(
            ArcaneError::CategoryValidation(String::from_str("Category name cannot be empty")),
        );
    }
    match validate_color(cat.color.as_str()) {
        Err(e) => {
            return Err(e);
        },
        Ok(()) => {},
    }
    match existing {
        Some((id, true)) => Ok(CategoryWrite::Restore { id }),
        Some((id, false)) => Ok(CategoryWrite::Update { id }),
        None => Ok(CategoryWrite::Insert),
    }
}


/// What removing a category did: deleted it, or archived it because
/// sessions were logged under it.
#[derive(Clone, Copy, Debug, PartialEq, Eq)]
pub enum RemovalResult {
    Deleted,
    Archived,
}

/// A category with logged sessions is archived to keep its history;
/// otherwise it is deleted.
pub fn removal_result(has_sessions: bool) -> (r: RemovalResult)
    ensures
        r == (if has_sessions {
            RemovalResult::Archived
        } else {
            RemovalResult::Deleted
        }),
{
    if has_sessions {
        RemovalResult::Archived
    } else {
        RemovalResult::Deleted
    }
}

} // verus!
