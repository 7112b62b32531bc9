//! Coloured terminal text, and checking the answers to questions.
use crate::control::same_chars;
use crate::text::{
    append_chars, chars_of, decimal, decimal_chars, int_text, int_text_chars, lowercase,
    parse_i32, parse_i32_chars, string_of, to_lowercase, trim, trim_chars,
};
use vstd::prelude::*;

verus! {

/// `txt` in the 24-bit terminal colour `(r, g, b)`: the escape sequence
/// `ESC[38;2;r;g;bm`, the text, then `ESC[m`.
pub open spec fn color_text(txt: Seq<char>, r: u8, g: u8, b: u8) -> Seq<char> {
    seq!['\x1b', '['] + "38;2;"@ + decimal(r as nat) + seq![';'] + decimal(g as nat) + seq![';']
        + decimal(b as nat) + seq!['m'] + txt + seq!['\x1b', '[', 'm']
}

pub fn color_txt(txt: &str, r: u8, g: u8, b: u8) -> (s: String)
    ensures
        s@ == color_text(txt@, r, g, b),
{
    let mut acc: Vec<char> = Vec::new();
    acc.push('\x1b');
    acc.push('[');
    append_chars(&mut acc, chars_of("38;2;").as_slice());
    append_chars(&mut acc, decimal_chars(r as u64).as_slice());
    acc.push(';');
    append_chars(&mut acc, decimal_chars(g as u64).as_slice());
    acc.push(';');
    append_chars(&mut acc, decimal_chars(b as u64).as_slice());
    acc.push('m');
    append_chars(&mut acc, chars_of(txt).as_slice());
    acc.push('\x1b');
    acc.push('[');
    acc.push('m');
    assert(acc@ =~= color_text(txt@, r, g, b));
    string_of(acc.as_slice())
}

/// The exit status and standard output of a shell command.
pub struct ShellResult {
    pub status: u8,
    pub output: String,
}

/// The kinds of answer a question can ask for, by the name the caller
/// gives them.
#[derive(Debug, Clone, Copy, PartialEq, Eq, Structural)]
pub enum AnswerKind {
    Text,
    Int,
    Float,
    YesNo,
    Camel,
    Pascal,
    Snake,
    Constant,
    Kebab,
    Email,
}

/// The kind of answer that the name `t` asks for; `None` for a name that
/// is not supported.
pub open spec fn answer_kind_of(t: Seq<char>) -> Option<AnswerKind> {
    if t == "string"@ {
        Some(AnswerKind::Text)
    } else if t == "int"@ {
        Some(AnswerKind::Int)
    } else if t == "float"@ {
        Some(AnswerKind::Float)
    } else if t == "yesno"@ {
        Some(AnswerKind::YesNo)
    } else if t == "camel"@ {
        Some(AnswerKind::Camel)
    } else if t == "pascal"@ {
        Some(AnswerKind::Pascal)
    } else if t == "snake"@ {
        Some(AnswerKind::Snake)
    } else if t == "constant"@ {
        Some(AnswerKind::Constant)
    } else if t == "kebab"@ {
        Some(AnswerKind::Kebab)
    } else if t == "email"@ {
        Some(AnswerKind::Email)
    } else {
        None
    }
}

fn is_text(t: &Vec<char>, w: &str) -> (b: bool)
    ensures
        b == (t@ == w@),
{
    same_chars(t.as_slice(), chars_of(w).as_slice())
}

/// The kind of answer that `answer_type` names.
pub fn answer_kind(answer_type: &str) -> (r: Option<AnswerKind>)
    ensures
        r == answer_kind_of(answer_type@),
{
    let t = chars_of(answer_type);
    if is_text(&t, "string") {
        Some(AnswerKind::Text)
    } else if is_text(&t, "int") {
        Some(AnswerKind::Int)
    } else if is_text(&t, "float") {
        Some(AnswerKind::Float)
    } else if is_text(&t, "yesno") {
        Some(AnswerKind::YesNo)
    } else if is_text(&t, "camel") {
        Some(AnswerKind::Camel)
    } else if is_text(&t, "pascal") {
        Some(AnswerKind::Pascal)
    } else if is_text(&t, "snake") {
        Some(AnswerKind::Snake)
    } else if is_text(&t, "constant") {
        Some(AnswerKind::Constant)
    } else if is_text(&t, "kebab") {
        Some(AnswerKind::Kebab)
    } else if is_text(&t, "email") {
        Some(AnswerKind::Email)
    } else {
        None
    }
}

/// Whether a kind of answer is checked against a regular expression.
pub open spec fn is_pattern_kind(k: AnswerKind) -> bool {
    match k {
        AnswerKind::Camel | AnswerKind::Pascal | AnswerKind::Snake | AnswerKind::Constant
        | AnswerKind::Kebab | AnswerKind::Email => true,
        _ => false,
    }
}

/// The regular expression that an answer of a pattern kind must match.
pub open spec fn answer_pattern(k: AnswerKind) -> Seq<char> {
    match k {
        AnswerKind::Camel => "^[a-z][a-zA-Z0-9]*$"@,
        AnswerKind::Pascal => "^[A-Z][a-zA-Z0-9]*$"@,
        AnswerKind::Snake => "^[a-z0-9_]+$"@,
        AnswerKind::Constant => "^[A-Z0-9_]+$"@,
        AnswerKind::Kebab => "^[a-z0-9\\-]+$"@,
        _ => "^[^\\s@]+@[^\\s@]+\\.[^\\s@]+$"@,
    }
}

fn pattern_str(k: AnswerKind) -> (p: &'static str)
    requires
        is_pattern_kind(k),
    ensures
        p@ == answer_pattern(k),
{
    match k {
        AnswerKind::Camel => "^[a-z][a-zA-Z0-9]*$",
        AnswerKind::Pascal => "^[A-Z][a-zA-Z0-9]*$",
        AnswerKind::Snake => "^[a-z0-9_]+$",
        AnswerKind::Constant => "^[A-Z0-9_]+$",
        AnswerKind::Kebab => "^[a-z0-9\\-]+$",
        _ => "^[^\\s@]+@[^\\s@]+\\.[^\\s@]+$",
    }
}

/// What an answer of a pattern kind that does not match is called.
pub open spec fn pattern_error(k: AnswerKind) -> Seq<char> {
    match k {
        AnswerKind::Camel => "invalid camel case input"@,
        AnswerKind::Pascal => "invalid pascal case input"@,
        AnswerKind::Snake => "invalid snake case input"@,
        AnswerKind::Constant => "invalid constant case input"@,
        AnswerKind::Kebab => "invalid kebab case input"@,
        _ => "invalid email input"@,
    }
}

fn pattern_error_str(k: AnswerKind) -> (p: &'static str)
    requires
        is_pattern_kind(k),
    ensures
        p@ == pattern_error(k),
{
    match k {
        AnswerKind::Camel => "invalid camel case input",
        AnswerKind::Pascal => "invalid pascal case input",
        AnswerKind::Snake => "invalid snake case input",
        AnswerKind::Constant => "invalid constant case input",
        AnswerKind::Kebab => "invalid kebab case input",
        _ => "invalid email input",
    }
}

/// An ASCII capital letter, `A` to `Z`.
pub open spec fn ascii_upper(c: char) -> bool {
    'A' <= c && c <= 'Z'
}

/// An ASCII small letter, `a` to `z`.
pub open spec fn ascii_lower(c: char) -> bool {
    'a' <= c && c <= 'z'
}

/// An ASCII digit, `0` to `9`.
pub open spec fn ascii_digit(c: char) -> bool {
    '0' <= c && c <= '9'
}

/// An ASCII letter or digit.
pub open spec fn ascii_alnum(c: char) -> bool {
    ascii_upper(c) || ascii_lower(c) || ascii_digit(c)
}

/// camelCase: a small letter, then letters and digits.
pub open spec fn camel_text(t: Seq<char>) -> bool {
    t.len() > 0 && ascii_lower(t[0]) && forall|i: int| 1 <= i < t.len() ==> ascii_alnum(#[trigger] t[i])
}

/// PascalCase: a capital letter, then letters and digits.
pub open spec fn pascal_text(t: Seq<char>) -> bool {
    t.len() > 0 && ascii_upper(t[0]) && forall|i: int| 1 <= i < t.len() ==> ascii_alnum(#[trigger] t[i])
}

/// snake_case: one or more small letters, digits and `_`.
pub open spec fn snake_text(t: Seq<char>) -> bool {
    t.len() > 0 && forall|i: int|
        0 <= i < t.len() ==> ascii_lower(#[trigger] t[i]) || ascii_digit(t[i]) || t[i] == '_'
}

/// CONSTANT_CASE: one or more capital letters, digits and `_`.
pub open spec fn constant_text(t: Seq<char>) -> bool {
    t.len() > 0 && forall|i: int|
        0 <= i < t.len() ==> ascii_upper(#[trigger] t[i]) || ascii_digit(t[i]) || t[i] == '_'
}

/// kebab-case: one or more small letters, digits and `-`.
pub open spec fn kebab_text(t: Seq<char>) -> bool {
    t.len() > 0 && forall|i: int|
        0 <= i < t.len() ==> ascii_lower(#[trigger] t[i]) || ascii_digit(t[i]) || t[i] == '-'
}

/// An e-mail address: one `@` with text before it, then, after it, text, a
/// `.` and more text; no white space anywhere and no other `@`.
pub open spec fn email_text(t: Seq<char>) -> bool {
    exists|a: int, b: int|
        0 < a && a + 1 < b && b + 1 < t.len() && #[trigger] t[a] == '@' && #[trigger] t[b] == '.'
            && forall|i: int| 0 <= i < t.len() && i != a ==> #[trigger] t[i] != '@' && !crate::text::is_space(t[i])
}

/// Whether the regular expression `pattern`, as the `regex` crate compiles
/// it, matches somewhere in `text`; `None` where it does not compile.
pub uninterp spec fn regex_match(pattern: Seq<char>, text: Seq<char>) -> Option<bool>;

/// `regex::Regex::new(pattern)`, then `Regex::is_match(text)` on the
/// compiled expression. Claimed: the result is `regex_match` of the two
/// texts, `None` when `Regex::new` fails. For the six expressions that
/// questions use, what they accept is stated by the crate's documented
/// syntax (`^`/`$` anchor the whole text, `[...]` and `[^...]` are character
/// classes, `\s` is Unicode white space, `+` and `*` repeat); for other
/// expressions it is left to the crate.
#[verifier::external_body]
fn regex_is_match(pattern: &str, text: &str) -> (r: Option<bool>)
    ensures
        r == regex_match(pattern@, text@),
        pattern@ == "^[a-z][a-zA-Z0-9]*$"@ ==> r == Some(camel_text(text@)),
        pattern@ == "^[A-Z][a-zA-Z0-9]*$"@ ==> r == Some(pascal_text(text@)),
        pattern@ == "^[a-z0-9_]+$"@ ==> r == Some(snake_text(text@)),
        pattern@ == "^[A-Z0-9_]+$"@ ==> r == Some(constant_text(text@)),
        pattern@ == "^[a-z0-9\\-]+$"@ ==> r == Some(kebab_text(text@)),
        pattern@ == "^[^\\s@]+@[^\\s@]+\\.[^\\s@]+$"@ ==> r == Some(email_text(text@)),
{
    match regex::Regex::new(pattern) {
        Ok(re) => Some(re.is_match(text)),
        Err(_) => None,
    }
}

/// The verdict on a trimmed answer `a` of kind `kind` (`None`: a kind that
/// is not supported), given `lower`, the lowercase form of `a`, and
/// `matched`, what the kind's regular expression made of `a`. `Ok` holds
/// the accepted answer, `Err` why it was refused.
pub open spec fn verdict(
    kind: Option<AnswerKind>,
    a: Seq<char>,
    lower: Seq<char>,
    matched: Option<bool>,
) -> Result<Seq<char>, Seq<char>> {
    match kind {
        None => Err("Unsupported answer type"@),
        Some(AnswerKind::Text) => Ok(a),
        Some(AnswerKind::Int) => match parse_i32(a) {
            Some(v) => Ok(int_text(v)),
            None => Err("invalid integer input"@),
        },
        Some(AnswerKind::YesNo) => if lower == "yes"@ || lower == "y"@ {
            Ok("yes"@)
        } else if lower == "no"@ || lower == "n"@ {
            Ok("no"@)
        } else {
            Err("invalid yes/no input"@)
        },
        Some(k) => if matched == Some(true) {
            Ok(a)
        } else {
            Err(pattern_error(k))
        },
    }
}

/// A `Result` of strings, seen as character sequences.
pub open spec fn result_view(r: Result<String, String>) -> Result<Seq<char>, Seq<char>> {
    match r {
        Ok(s) => Ok(s@),
        Err(e) => Err(e@),
    }
}

/// `verdict`, computed. A `Float` kind is judged by the caller.
pub fn answer_verdict(kind: Option<AnswerKind>, a: &str, lower: &str, matched: Option<bool>) -> (r:
    Result<String, String>)
    requires
        kind != Some(AnswerKind::Float),
    ensures
        result_view(r) == verdict(kind, a@, lower@, matched),
{
    match kind {
        None => Err("Unsupported answer type".to_owned()),
        Some(AnswerKind::Text) => Ok(a.to_owned()),
        Some(AnswerKind::Int) => match parse_i32_chars(chars_of(a).as_slice()) {
            Some(v) => Ok(string_of(int_text_chars(v).as_slice())),
            None => Err("invalid integer input".to_owned()),
        },
        Some(AnswerKind::YesNo) => {
            let l = chars_of(lower);
            if is_text(&l, "yes") || is_text(&l, "y") {
                Ok("yes".to_owned())
            } else if is_text(&l, "no") || is_text(&l, "n") {
                Ok("no".to_owned())
            } else {
                Err("invalid yes/no input".to_owned())
            }
        },
        Some(k) => {
            if matched == Some(true) {
                Ok(a.to_owned())
            } else {
                Err(pattern_error_str(k).to_owned())
            }
        },
    }
}

/// The answer that the line `answer` gives to a question asking for
/// `answer_type`: the line is trimmed, then judged by `verdict`, with the
/// lowercase form of the trimmed line and, for a pattern kind, what the
/// kind's regular expression makes of it. An answer of kind `"float"` is
/// judged by the caller.
pub fn check_answer(answer: &str, answer_type: &str) -> (r: Result<String, String>)
    requires
        answer_type@ != "float"@,
    ensures
        ({
            let kind = answer_kind_of(answer_type@);
            let a = trim(answer@);
            let matched = match kind {
                Some(k) => if is_pattern_kind(k) {
                    regex_match(answer_pattern(k), a)
                } else {
                    None
                },
                None => None,
            };
            let lower = if kind == Some(AnswerKind::YesNo) {
                lowercase(a)
            } else {
                ""@
            };
            result_view(r) == verdict(kind, a, lower, matched)
        }),
        answer_type@ == "camel"@ ==> result_view(r) == if camel_text(trim(answer@)) {
            Ok(trim(answer@))
        } else {
            Err("invalid camel case input"@)
        },
        answer_type@ == "pascal"@ ==> result_view(r) == if pascal_text(trim(answer@)) {
            Ok(trim(answer@))
        } else {
            Err("invalid pascal case input"@)
        },
        answer_type@ == "snake"@ ==> result_view(r) == if snake_text(trim(answer@)) {
            Ok(trim(answer@))
        } else {
            Err("invalid snake case input"@)
        },
        answer_type@ == "constant"@ ==> result_view(r) == if constant_text(trim(answer@)) {
            Ok(trim(answer@))
        } else {
            Err("invalid constant case input"@)
        },
        answer_type@ == "kebab"@ ==> result_view(r) == if kebab_text(trim(answer@)) {
            Ok(trim(answer@))
        } else {
            Err("invalid kebab case input"@)
        },
        answer_type@ == "email"@ ==> result_view(r) == if email_text(trim(answer@)) {
            Ok(trim(answer@))
        } else {
            Err("invalid email input"@)
        },
{
    proof {
        reveal_strlit("string");
        reveal_strlit("int");
        reveal_strlit("float");
        reveal_strlit("yesno");
        reveal_strlit("camel");
        reveal_strlit("pascal");
        reveal_strlit("snake");
        reveal_strlit("constant");
        reveal_strlit("kebab");
        reveal_strlit("email");
        assert("string"@[0] == 's' && "string"@.len() == 6);
        assert("int"@[0] == 'i' && "int"@.len() == 3);
        assert("float"@[0] == 'f' && "float"@.len() == 5);
        assert("yesno"@[0] == 'y' && "yesno"@.len() == 5);
        assert("camel"@[0] == 'c' && "camel"@.len() == 5);
        assert("pascal"@[0] == 'p' && "pascal"@.len() == 6);
        assert("snake"@[0] == 's' && "snake"@.len() == 5);
        assert("constant"@[0] == 'c' && "constant"@.len() == 8);
        assert("kebab"@[0] == 'k' && "kebab"@.len() == 5);
        assert("email"@[0] == 'e' && "email"@.len() == 5);
    }
    let kind = answer_kind(answer_type);
    let a = string_of(trim_chars(chars_of(answer).as_slice()).as_slice());
    let matched = match kind {
        Some(k) => if is_pattern_kind_exec(k) {
            regex_is_match(pattern_str(k), a.as_str())
        } else {
            None
        },
        None => None,
    };
    let lower = if kind == Some(AnswerKind::YesNo) {
        to_lowercase(a.as_str())
    } else {
        String::new()
    };
    answer_verdict(kind, a.as_str(), lower.as_str(), matched)
}

fn is_pattern_kind_exec(k: AnswerKind) -> (b: bool)
    ensures
        b == is_pattern_kind(k),
{
    match k {
        AnswerKind::Camel | AnswerKind::Pascal | AnswerKind::Snake | AnswerKind::Constant
        | AnswerKind::Kebab | AnswerKind::Email => true,
        _ => false,
    }
}

/// The message shown before asking again after the answer `answer` was
/// refused as `err`, in red.
pub open spec fn retry_text(answer: Seq<char>, err: Seq<char>) -> Seq<char> {
    color_text("(Error:\""@ + answer + "\" is "@ + err + ". Please try again) "@, 255, 0, 0)
}

pub fn retry_message(answer: &str, err: &str) -> (s: String)
    ensures
        s@ == retry_text(answer@, err@),
{
    let mut acc: Vec<char> = chars_of("(Error:\"");
    append_chars(&mut acc, chars_of(answer).as_slice());
    append_chars(&mut acc, chars_of("\" is ").as_slice());
    append_chars(&mut acc, chars_of(err).as_slice());
    append_chars(&mut acc, chars_of(". Please try again) ").as_slice());
    let m = string_of(acc.as_slice());
    color_txt(m.as_str(), 255, 0, 0)
}

/// The prompt of a question: the question in green and `": "`, after the
/// message of the last refusal where there was one.
pub open spec fn prompt_text(prompt: Seq<char>, retry: Option<Seq<char>>) -> Seq<char> {
    match retry {
        Some(m) => m + color_text(prompt, 0, 255, 0) + ": "@,
        None => color_text(prompt, 0, 255, 0) + ": "@,
    }
}

pub fn question_prompt(prompt: &str, retry: Option<&str>) -> (s: String)
    ensures
        s@ == prompt_text(prompt@, match retry {
            Some(m) => Some(m@),
            None => None,
        }),
{
    let mut acc: Vec<char> = match retry {
        Some(m) => chars_of(m),
        None => Vec::new(),
    };
    let colored = color_txt(prompt, 0, 255, 0);
    append_chars(&mut acc, chars_of(colored.as_str()).as_slice());
    append_chars(&mut acc, chars_of(": ").as_slice());
    string_of(acc.as_slice())
}

} // verus!
