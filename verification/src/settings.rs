//! Settings as they stand in the configuration file and in the environment.

use figment::providers::Format;
use vstd::prelude::*;

use crate::process::opt_text;
use crate::text::chars_of;
use crate::text::same_text;

verus! {

/// What the names of the environment variables that hold settings begin with.
pub const ENV_PREFIX: &'static str = "MACOS_PROC_MONITOR_";

/// The configuration file: its path and its text.
#[derive(Debug, Clone)]
pub struct ConfigFile {
    pub path: String,
    pub text: String,
}

/// The names and values of settings in the environment as texts.
pub open spec fn variables(vars: Seq<(String, String)>) -> Seq<(Seq<char>, Seq<char>)> {
    vars.map_values(|v: (String, String)| (v.0@, v.1@))
}

/// A name belongs to the setting `key` if it is `key`, or if it goes on behind `key` with a
/// dot: it then sets a part of a table.
pub open spec fn belongs_to(name: Seq<char>, key: Seq<char>) -> bool {
    name == key || key.push('.').is_prefix_of(name)
}

fn name_belongs_to(name: &str, key: &str) -> (r: bool)
    ensures
        r == belongs_to(name@, key@),
{
    let chars = chars_of(name);
    let wanted = chars_of(key);
    if chars.len() < wanted.len() {
        return false;
    }
    let mut i: usize = 0;
    while i < wanted.len()
        invariant
            chars@ == name@,
            wanted@ == key@,
            i <= wanted.len() <= chars.len(),
            forall|j: int| 0 <= j < i ==> #[trigger] chars@[j] == wanted@[j],
        decreases wanted.len() - i,
    {
        if chars[i] != wanted[i] {
            proof {
                if key@.push('.').is_prefix_of(name@) {
                    assert(key@.push('.')[i as int] == name@[i as int]);
                }
            }
            return false;
        }
        i = i + 1;
    }
    if chars.len() == wanted.len() {
        assert(name@ =~= key@);
        return true;
    }
    let dotted = chars[wanted.len()] == '.';
    proof {
        let front = key@.push('.');
        assert(name@.len() >= front.len());
        if dotted {
            assert(name@.subrange(0, front.len() as int) =~= front);
        } else if front.is_prefix_of(name@) {
            assert(front[key@.len() as int] == name@[key@.len() as int]);
        }
    }
    dotted
}

/// The last of some settings in the environment that belongs to `key`.
pub open spec fn variable_for(vars: Seq<(Seq<char>, Seq<char>)>, key: Seq<char>) -> Option<
    (Seq<char>, Seq<char>),
>
    decreases vars.len(),
{
    if vars.len() == 0 {
        None
    } else if belongs_to(vars.last().0, key) {
        Some(vars.last())
    } else {
        variable_for(vars.drop_last(), key)
    }
}

fn find_variable<'a>(vars: &'a Vec<(String, String)>, key: &str) -> (found: Option<
    &'a (String, String),
>)
    ensures
        match found {
            Some(v) => variable_for(variables(vars@), key@) == Some((v.0@, v.1@)),
            None => variable_for(variables(vars@), key@) is None,
        },
{
    let ghost all = variables(vars@);
    let mut i: usize = vars.len();
    assert(all.take(i as int) =~= all);
    while i > 0
        invariant
            all == variables(vars@),
            i <= vars.len(),
            variable_for(all, key@) == variable_for(all.take(i as int), key@),
        decreases i,
    {
        i = i - 1;
        proof {
            let upto = all.take(i + 1);
            assert(upto.drop_last() =~= all.take(i as int));
            assert(upto.last() == (vars@[i as int].0@, vars@[i as int].1@));
        }
        if name_belongs_to(vars[i].0.as_str(), key) {
            return Some(&vars[i]);
        }
    }
    None
}

/// How many opening brackets and braces a list or a table in an environment variable may
/// have. figment's parser goes one level deeper with each; the bound guards the stack.
pub const MAX_OPENINGS: usize = 32;

/// The number of opening brackets and braces of a text.
pub open spec fn openings(text: Seq<char>) -> nat
    decreases text.len(),
{
    if text.len() == 0 {
        0
    } else if text.last() == '[' || text.last() == '{' {
        openings(text.drop_last()) + 1
    } else {
        openings(text.drop_last())
    }
}

/// A character of the ASCII table.
pub open spec fn is_ascii_char(c: char) -> bool {
    c <= '\u{7f}'
}

/// White space of the ASCII table.
pub open spec fn is_blank(c: char) -> bool {
    c == ' ' || c == '\t' || c == '\n' || c == '\u{c}' || c == '\r'
}

/// A text without the white space that it begins with.
pub open spec fn without_blanks(text: Seq<char>) -> Seq<char>
    decreases text.len(),
{
    if text.len() > 0 && is_blank(text[0]) {
        without_blanks(text.skip(1))
    } else {
        text
    }
}

/// The number of bytes of a character in UTF-8.
pub open spec fn bytes_of(c: char) -> int {
    if c <= '\u{7f}' {
        1
    } else if c <= '\u{7ff}' {
        2
    } else if c <= '\u{ffff}' {
        3
    } else {
        4
    }
}

/// Whether a character of a text ends after `n` bytes, or `n` is zero.
pub open spec fn ends_after(text: Seq<char>, n: int) -> bool
    decreases text.len(),
{
    n == 0 || n > 0 && text.len() > 0 && ends_after(text.skip(1), n - bytes_of(text[0]))
}

/// The number of characters before the first backslash or quote.
pub open spec fn before_mark(text: Seq<char>) -> nat
    decreases text.len(),
{
    if text.len() == 0 || text[0] == '\\' || text[0] == '"' {
        0
    } else {
        before_mark(text.skip(1)) + 1
    }
}

/// Whether a quote closes the quoted text that goes on with `text`. A backslash takes the
/// meaning of the character behind it away; `escaped` says that one stood before.
pub open spec fn is_closed(text: Seq<char>, escaped: bool) -> bool
    decreases text.len(),
{
    if text.len() == 0 {
        false
    } else if escaped {
        is_closed(text.skip(1), false)
    } else if text[0] == '\\' {
        is_closed(text.skip(1), true)
    } else {
        text[0] == '"' || is_closed(text.skip(1), false)
    }
}

/// A character that may stand for itself in a quoted text.
pub open spec fn may_be_quoted(c: char) -> bool {
    c == '\t' || (c >= ' ' && c != '\u{7f}')
}

/// Whether figment's parser stops the program on the quoted text behind a quote. It counts
/// the characters before the first escape sequence and takes as many bytes: these must not
/// end within a character.
pub open spec fn stops_at_escape(text: Seq<char>) -> bool {
    let n = before_mark(text) as int;
    &&& n < text.len()
    &&& text[n] == '\\'
    &&& is_closed(text, false)
    &&& forall|i: int| 0 <= i < n ==> may_be_quoted(#[trigger] text[i])
    &&& !ends_after(text, n)
}

/// Whether figment's parser is sure to get through a list or a table: there are not too many
/// opening brackets, which guards the stack, and no quoted text in it can have an escape
/// sequence behind a character that is not ASCII. No setting is a list or a table.
pub open spec fn list_can_be_parsed(text: Seq<char>) -> bool {
    &&& !text.contains('\\') || !text.contains('"') || forall|i: int|
        0 <= i < text.len() ==> is_ascii_char(#[trigger] text[i])
    &&& openings(text) <= MAX_OPENINGS
}

/// Whether figment can parse the value of an environment variable. Behind white space a
/// quote begins a quoted text, a bracket a list and a brace a table; any other text is read
/// as it is.
pub open spec fn can_be_parsed(text: Seq<char>) -> bool {
    let value = without_blanks(text);
    if value.len() == 0 {
        true
    } else if value[0] == '"' {
        !stops_at_escape(value.skip(1))
    } else if value[0] == '[' || value[0] == '{' {
        list_can_be_parsed(value)
    } else {
        true
    }
}

fn byte_count(c: char) -> (n: usize)
    ensures
        n == bytes_of(c),
{
    if c <= '\u{7f}' {
        1
    } else if c <= '\u{7ff}' {
        2
    } else if c <= '\u{ffff}' {
        3
    } else {
        4
    }
}

/// The place of the first character that is not white space.
fn first_filled(chars: &Vec<char>) -> (place: usize)
    ensures
        place <= chars@.len(),
        without_blanks(chars@) == chars@.skip(place as int),
{
    let mut i: usize = 0;
    assert(chars@.skip(0) =~= chars@);
    while i < chars.len() && (chars[i] == ' ' || chars[i] == '\t' || chars[i] == '\n' || chars[i]
        == '\u{c}' || chars[i] == '\r')
        invariant
            i <= chars.len(),
            without_blanks(chars@) == without_blanks(chars@.skip(i as int)),
        decreases chars.len() - i,
    {
        assert(chars@.skip(i as int).skip(1) =~= chars@.skip(i + 1));
        i = i + 1;
    }
    i
}

proof fn lemma_before_mark(text: Seq<char>, n: nat)
    requires
        n <= text.len(),
        forall|i: int| 0 <= i < n ==> #[trigger] text[i] != '\\' && text[i] != '"',
        n < text.len() ==> text[n as int] == '\\' || text[n as int] == '"',
    ensures
        before_mark(text) == n,
    decreases n,
{
    if n > 0 {
        assert(text[0] != '\\' && text[0] != '"');
        let rest = text.skip(1);
        assert forall|i: int| 0 <= i < n - 1 implies #[trigger] rest[i] != '\\' && rest[i]
            != '"' by {
            assert(text[i + 1] == rest[i]);
        }
        lemma_before_mark(rest, (n - 1) as nat);
    }
}

fn closes(chars: &Vec<char>, start: usize) -> (r: bool)
    requires
        start <= chars@.len(),
    ensures
        r == is_closed(chars@.skip(start as int), false),
{
    let mut escaped = false;
    let mut i: usize = start;
    while i < chars.len()
        invariant
            start <= i <= chars.len(),
            is_closed(chars@.skip(start as int), false) == is_closed(
                chars@.skip(i as int),
                escaped,
            ),
        decreases chars.len() - i,
    {
        assert(chars@.skip(i as int).skip(1) =~= chars@.skip(i + 1));
        assert(chars@.skip(i as int)[0] == chars@[i as int]);
        if escaped {
            escaped = false;
        } else if chars[i] == '\\' {
            escaped = true;
        } else if chars[i] == '"' {
            return true;
        }
        i = i + 1;
    }
    false
}

fn has_end_after(chars: &Vec<char>, start: usize, n: usize) -> (r: bool)
    requires
        start <= chars@.len(),
    ensures
        r == ends_after(chars@.skip(start as int), n as int),
{
    let mut left: usize = n;
    let mut i: usize = start;
    while left > 0 && i < chars.len()
        invariant
            start <= i <= chars.len(),
            ends_after(chars@.skip(start as int), n as int) == ends_after(
                chars@.skip(i as int),
                left as int,
            ),
        decreases chars.len() - i,
    {
        assert(chars@.skip(i as int).skip(1) =~= chars@.skip(i + 1));
        assert(chars@.skip(i as int)[0] == chars@[i as int]);
        let bytes: usize = byte_count(chars[i]);
        if bytes > left {
            assert(!ends_after(chars@.skip(i + 1), left - bytes));
            return false;
        }
        left = left - bytes;
        i = i + 1;
    }
    left == 0
}

fn quoted_text_stops(chars: &Vec<char>, start: usize) -> (r: bool)
    requires
        start <= chars@.len(),
    ensures
        r == stops_at_escape(chars@.skip(start as int)),
{
    let ghost text = chars@.skip(start as int);
    let mut i: usize = start;
    let mut allowed = true;
    while i < chars.len() && chars[i] != '\\' && chars[i] != '"'
        invariant
            text == chars@.skip(start as int),
            start <= i <= chars.len(),
            forall|j: int| 0 <= j < i - start ==> #[trigger] text[j] != '\\' && text[j] != '"',
            allowed == forall|j: int| 0 <= j < i - start ==> may_be_quoted(#[trigger] text[j]),
        decreases chars.len() - i,
    {
        let c = chars[i];
        assert(text[i - start] == c);
        if !(c == '\t' || (c >= ' ' && c != '\u{7f}')) {
            allowed = false;
        }
        i = i + 1;
    }
    proof {
        if i < chars.len() {
            assert(text[i - start] == chars@[i as int]);
        }
        lemma_before_mark(text, (i - start) as nat);
    }
    i < chars.len() && chars[i] == '\\' && closes(chars, start) && allowed && !has_end_after(
        chars,
        start,
        i - start,
    )
}

fn parsing_is_safe(text: &str) -> (r: bool)
    ensures
        r == can_be_parsed(text@),
{
    let chars = chars_of(text);
    let start: usize = first_filled(&chars);
    let ghost value = text@.skip(start as int);
    if start == chars.len() {
        return true;
    }
    assert(value[0] == chars@[start as int]);
    if chars[start] == '"' {
        assert(value.skip(1) =~= chars@.skip(start + 1));
        return !quoted_text_stops(&chars, start + 1);
    }
    if chars[start] == '[' || chars[start] == '{' {
        return list_is_safe(&chars, start);
    }
    true
}

fn list_is_safe(chars: &Vec<char>, start: usize) -> (r: bool)
    requires
        start <= chars@.len(),
    ensures
        r == list_can_be_parsed(chars@.skip(start as int)),
{
    let ghost text = chars@.skip(start as int);
    let mut escaped = false;
    let mut quoted = false;
    let mut ascii = true;
    let mut opened: usize = 0;
    let mut i: usize = start;
    assert(text.take(0) =~= Seq::<char>::empty());
    while i < chars.len()
        invariant
            text == chars@.skip(start as int),
            start <= i <= chars.len(),
            opened <= i,
            opened == openings(text.take(i - start)),
            escaped == text.take(i - start).contains('\\'),
            quoted == text.take(i - start).contains('"'),
            ascii == forall|j: int| 0 <= j < i - start ==> is_ascii_char(#[trigger] text[j]),
        decreases chars.len() - i,
    {
        let c = chars[i];
        let ghost before = text.take(i - start);
        let ghost upto = text.take(i - start + 1);
        proof {
            assert(text[i - start] == c);
            assert(upto.drop_last() =~= before);
            assert(upto =~= before.push(c));
            lemma_contains_push(before, c, '\\');
            lemma_contains_push(before, c, '"');
        }
        if c == '\\' {
            escaped = true;
        }
        if c == '"' {
            quoted = true;
        }
        if c > '\u{7f}' {
            assert(!is_ascii_char(text[i - start]));
            ascii = false;
        }
        if c == '[' || c == '{' {
            opened = opened + 1;
        }
        i = i + 1;
    }
    assert(text.take(i - start) =~= text);
    (!escaped || !quoted || ascii) && opened <= MAX_OPENINGS
}

proof fn lemma_contains_push(text: Seq<char>, c: char, wanted: char)
    ensures
        text.push(c).contains(wanted) == (text.contains(wanted) || c == wanted),
{
    let all = text.push(c);
    if text.contains(wanted) {
        let i = choose|i: int| 0 <= i < text.len() && text[i] == wanted;
        assert(all[i] == wanted);
    }
    if c == wanted {
        assert(all[text.len() as int] == wanted);
    }
    if all.contains(wanted) {
        let i = choose|i: int| 0 <= i < all.len() && all[i] == wanted;
        if i < text.len() {
            assert(text[i] == wanted);
        }
    }
}

/// An error with a message.
///
/// Calls `figment::Error`'s `from` of a text. The contract claims nothing of the error.
#[verifier::external_body]
fn plain_error(message: &str) -> (error: figment::Error) {
    figment::Error::from(message.to_string())
}

/// The error `e` with the setting that it is about and with the environment as its source.
///
/// Calls `figment::Error`'s `with_path` and takes the source from the `metadata` of a
/// `figment::providers::Env`. The contract claims nothing of the error.
#[verifier::external_body]
fn in_environment(e: figment::Error, key: &str, prefix: &str) -> (error: figment::Error) {
    let env = figment::providers::Env::prefixed(prefix);
    let mut error = e.with_path(key);
    error.profile = Some(figment::Profile::Default);
    error.metadata = Some(figment::Provider::metadata(&env));
    error
}

/// The error `e` with the configuration file at `path` as its source.
///
/// Calls `figment::Metadata::from`. The contract claims nothing of the error.
#[verifier::external_body]
fn in_file(e: figment::Error, kind: &'static str, path: &str) -> (error: figment::Error) {
    let mut error = e;
    error.metadata = Some(figment::Metadata::from(kind, std::path::Path::new(path)));
    error
}

/// Whether a text is well-formed TOML.
pub uninterp spec fn is_toml(text: Seq<char>) -> bool;

/// Reads a TOML text as a whole.
///
/// Calls `figment::Provider::data` of the text as a `figment::providers::Toml`. Whether
/// that succeeds is a function of the text, named [`is_toml`]. What the error says is left
/// to figment.
#[verifier::external_body]
fn read_toml(text: &str) -> (checked: Result<(), figment::Error>)
    ensures
        checked is Ok <==> is_toml(text@),
{
    figment::Provider::data(&figment::providers::Toml::string(text)).map(|_| ())
}

impl ConfigFile {
    /// Whether the file is well-formed TOML; if not, the error names the file.
    pub fn check(&self) -> (checked: Result<(), figment::Error>)
        ensures
            checked is Ok <==> is_toml(self.text@),
    {
        match read_toml(self.text.as_str()) {
            Ok(_) => Ok(()),
            Err(e) => Err(in_file(e, "TOML file", self.path.as_str())),
        }
    }
}

/// The setting `key` of a TOML text as a truth value: `None` where it is something else, and
/// `Some(None)` where the text has no such setting.
pub uninterp spec fn file_bool(text: Seq<char>, key: Seq<char>) -> Option<Option<bool>>;

/// Reads one setting of a TOML text as a truth value.
///
/// Calls `figment::Figment::find_value` and `extract_inner` on the text as a
/// `figment::providers::Toml`. Both are functions of the text and the key: the result is
/// named [`file_bool`]. What the error says is left to figment.
#[verifier::external_body]
fn read_file_bool(text: &str, key: &str) -> (setting: Result<Option<bool>, figment::Error>)
    ensures
        match setting {
            Ok(value) => file_bool(text@, key@) == Some(value),
            Err(_) => file_bool(text@, key@) is None,
        },
{
    let layer = figment::Figment::from(figment::providers::Toml::string(text));
    match layer.find_value(key) {
        Ok(_) => layer.extract_inner::<bool>(key).map(Some),
        Err(_) => Ok(None),
    }
}

/// The value of an environment variable as a truth value; `None` where it is something else. Which
/// numbers are read as such depends on the width of a machine word.
pub uninterp spec fn var_bool(text: Seq<char>, word_bits: u32) -> Option<bool>;

/// Reads the value of an environment variable as a truth value.
///
/// Calls `figment::value::Value`'s `from_str`, which never fails, and `deserialize`. Both
/// are functions of the text and the width of a machine word: the result is named
/// [`var_bool`]. What the error says is left to figment. The parser stops the program on some
/// texts, which are left out.
#[verifier::external_body]
fn read_var_bool(text: &str) -> (setting: Result<bool, figment::Error>)
    requires
        can_be_parsed(text@),
    ensures
        match setting {
            Ok(value) => var_bool(text@, usize::BITS) == Some(value),
            Err(_) => var_bool(text@, usize::BITS) is None,
        },
{
    match text.parse::<figment::value::Value>() {
        Ok(value) => value.deserialize::<bool>(),
        Err(never) => match never {},
    }
}

/// The setting `key` of a TOML text as a number of 16 bits: `None` where it is something else, and
/// `Some(None)` where the text has no such setting.
pub uninterp spec fn file_u16(text: Seq<char>, key: Seq<char>) -> Option<Option<u16>>;

/// Reads one setting of a TOML text as a number of 16 bits.
///
/// Calls `figment::Figment::find_value` and `extract_inner` on the text as a
/// `figment::providers::Toml`. Both are functions of the text and the key: the result is
/// named [`file_u16`]. What the error says is left to figment.
#[verifier::external_body]
fn read_file_u16(text: &str, key: &str) -> (setting: Result<Option<u16>, figment::Error>)
    ensures
        match setting {
            Ok(value) => file_u16(text@, key@) == Some(value),
            Err(_) => file_u16(text@, key@) is None,
        },
{
    let layer = figment::Figment::from(figment::providers::Toml::string(text));
    match layer.find_value(key) {
        Ok(_) => layer.extract_inner::<u16>(key).map(Some),
        Err(_) => Ok(None),
    }
}

/// The value of an environment variable as a number of 16 bits; `None` where it is something else. Which
/// numbers are read as such depends on the width of a machine word.
pub uninterp spec fn var_u16(text: Seq<char>, word_bits: u32) -> Option<u16>;

/// Reads the value of an environment variable as a number of 16 bits.
///
/// Calls `figment::value::Value`'s `from_str`, which never fails, and `deserialize`. Both
/// are functions of the text and the width of a machine word: the result is named
/// [`var_u16`]. What the error says is left to figment. The parser stops the program on some
/// texts, which are left out.
#[verifier::external_body]
fn read_var_u16(text: &str) -> (setting: Result<u16, figment::Error>)
    requires
        can_be_parsed(text@),
    ensures
        match setting {
            Ok(value) => var_u16(text@, usize::BITS) == Some(value),
            Err(_) => var_u16(text@, usize::BITS) is None,
        },
{
    match text.parse::<figment::value::Value>() {
        Ok(value) => value.deserialize::<u16>(),
        Err(never) => match never {},
    }
}

/// The setting `key` of a TOML text as a number of 32 bits: `None` where it is something else, and
/// `Some(None)` where the text has no such setting.
pub uninterp spec fn file_u32(text: Seq<char>, key: Seq<char>) -> Option<Option<u32>>;

/// Reads one setting of a TOML text as a number of 32 bits.
///
/// Calls `figment::Figment::find_value` and `extract_inner` on the text as a
/// `figment::providers::Toml`. Both are functions of the text and the key: the result is
/// named [`file_u32`]. What the error says is left to figment.
#[verifier::external_body]
fn read_file_u32(text: &str, key: &str) -> (setting: Result<Option<u32>, figment::Error>)
    ensures
        match setting {
            Ok(value) => file_u32(text@, key@) == Some(value),
            Err(_) => file_u32(text@, key@) is None,
        },
{
    let layer = figment::Figment::from(figment::providers::Toml::string(text));
    match layer.find_value(key) {
        Ok(_) => layer.extract_inner::<u32>(key).map(Some),
        Err(_) => Ok(None),
    }
}

/// The value of an environment variable as a number of 32 bits; `None` where it is something else. Which
/// numbers are read as such depends on the width of a machine word.
pub uninterp spec fn var_u32(text: Seq<char>, word_bits: u32) -> Option<u32>;

/// Reads the value of an environment variable as a number of 32 bits.
///
/// Calls `figment::value::Value`'s `from_str`, which never fails, and `deserialize`. Both
/// are functions of the text and the width of a machine word: the result is named
/// [`var_u32`]. What the error says is left to figment. The parser stops the program on some
/// texts, which are left out.
#[verifier::external_body]
fn read_var_u32(text: &str) -> (setting: Result<u32, figment::Error>)
    requires
        can_be_parsed(text@),
    ensures
        match setting {
            Ok(value) => var_u32(text@, usize::BITS) == Some(value),
            Err(_) => var_u32(text@, usize::BITS) is None,
        },
{
    match text.parse::<figment::value::Value>() {
        Ok(value) => value.deserialize::<u32>(),
        Err(never) => match never {},
    }
}

/// The setting `key` of a TOML text as a number of 64 bits: `None` where it is something else, and
/// `Some(None)` where the text has no such setting.
pub uninterp spec fn file_u64(text: Seq<char>, key: Seq<char>) -> Option<Option<u64>>;

/// Reads one setting of a TOML text as a number of 64 bits.
///
/// Calls `figment::Figment::find_value` and `extract_inner` on the text as a
/// `figment::providers::Toml`. Both are functions of the text and the key: the result is
/// named [`file_u64`]. What the error says is left to figment.
#[verifier::external_body]
fn read_file_u64(text: &str, key: &str) -> (setting: Result<Option<u64>, figment::Error>)
    ensures
        match setting {
            Ok(value) => file_u64(text@, key@) == Some(value),
            Err(_) => file_u64(text@, key@) is None,
        },
{
    let layer = figment::Figment::from(figment::providers::Toml::string(text));
    match layer.find_value(key) {
        Ok(_) => layer.extract_inner::<u64>(key).map(Some),
        Err(_) => Ok(None),
    }
}

/// The value of an environment variable as a number of 64 bits; `None` where it is something else. Which
/// numbers are read as such depends on the width of a machine word.
pub uninterp spec fn var_u64(text: Seq<char>, word_bits: u32) -> Option<u64>;

/// Reads the value of an environment variable as a number of 64 bits.
///
/// Calls `figment::value::Value`'s `from_str`, which never fails, and `deserialize`. Both
/// are functions of the text and the width of a machine word: the result is named
/// [`var_u64`]. What the error says is left to figment. The parser stops the program on some
/// texts, which are left out.
#[verifier::external_body]
fn read_var_u64(text: &str) -> (setting: Result<u64, figment::Error>)
    requires
        can_be_parsed(text@),
    ensures
        match setting {
            Ok(value) => var_u64(text@, usize::BITS) == Some(value),
            Err(_) => var_u64(text@, usize::BITS) is None,
        },
{
    match text.parse::<figment::value::Value>() {
        Ok(value) => value.deserialize::<u64>(),
        Err(never) => match never {},
    }
}

/// The setting `key` of a TOML text as a text: `None` where it is something else, and
/// `Some(None)` where the text has no such setting.
pub uninterp spec fn file_text(text: Seq<char>, key: Seq<char>) -> Option<Option<Seq<char>>>;

/// Reads one setting of a TOML text as a text.
///
/// Calls `figment::Figment::find_value` and `extract_inner` on the text as a
/// `figment::providers::Toml`. Both are functions of the text and the key: the result is
/// named [`file_text`]. What the error says is left to figment.
#[verifier::external_body]
fn read_file_text(text: &str, key: &str) -> (setting: Result<Option<String>, figment::Error>)
    ensures
        match setting {
            Ok(value) => file_text(text@, key@) == Some(opt_text(value)),
            Err(_) => file_text(text@, key@) is None,
        },
{
    let layer = figment::Figment::from(figment::providers::Toml::string(text));
    match layer.find_value(key) {
        Ok(_) => layer.extract_inner::<String>(key).map(Some),
        Err(_) => Ok(None),
    }
}

/// The value of an environment variable as a text; `None` where it is something else. Which
/// numbers are read as such depends on the width of a machine word.
pub uninterp spec fn var_text(text: Seq<char>, word_bits: u32) -> Option<Seq<char>>;

/// Reads the value of an environment variable as a text.
///
/// Calls `figment::value::Value`'s `from_str`, which never fails, and `deserialize`. Both
/// are functions of the text and the width of a machine word: the result is named
/// [`var_text`]. What the error says is left to figment. The parser stops the program on some
/// texts, which are left out.
#[verifier::external_body]
fn read_var_text(text: &str) -> (setting: Result<String, figment::Error>)
    requires
        can_be_parsed(text@),
    ensures
        match setting {
            Ok(value) => var_text(text@, usize::BITS) == Some(value@),
            Err(_) => var_text(text@, usize::BITS) is None,
        },
{
    match text.parse::<figment::value::Value>() {
        Ok(value) => value.deserialize::<String>(),
        Err(never) => match never {},
    }
}

/// What one layer of the configuration says of a setting.
pub enum Setting<T> {
    /// Nothing.
    Absent,
    /// Its value.
    Given(T),
    /// A value that the setting cannot have.
    Invalid(figment::Error),
}

/// `setting` is what was read: `None` for an invalid value, `Some(None)` for none.
pub open spec fn was_read<T>(setting: Setting<T>, read: Option<Option<T>>) -> bool {
    match setting {
        Setting::Absent => read == Some(None::<T>),
        Setting::Given(value) => read == Some(Some(value)),
        Setting::Invalid(_) => read is None,
    }
}

/// As [`was_read`], for a text.
pub open spec fn text_was_read(setting: Setting<String>, read: Option<Option<Seq<char>>>) -> bool {
    match setting {
        Setting::Absent => read == Some(None::<Seq<char>>),
        Setting::Given(value) => read == Some(Some(value@)),
        Setting::Invalid(_) => read is None,
    }
}

fn from_file<T>(read: Result<Option<T>, figment::Error>, path: &str) -> (setting: Setting<T>)
    ensures
        match read {
            Ok(Some(value)) => setting == Setting::Given(value),
            Ok(None) => setting is Absent,
            Err(_) => setting is Invalid,
        },
{
    match read {
        Ok(Some(value)) => Setting::Given(value),
        Ok(None) => Setting::Absent,
        Err(e) => Setting::Invalid(in_file(e, "TOML file", path)),
    }
}

fn from_var<T>(read: Result<T, figment::Error>, key: &str) -> (setting: Setting<T>)
    ensures
        match read {
            Ok(value) => setting == Setting::Given(value),
            Err(_) => setting is Invalid,
        },
{
    match read {
        Ok(value) => Setting::Given(value),
        Err(e) => Setting::Invalid(in_environment(e, key, ENV_PREFIX)),
    }
}

/// The text that the environment holds for the setting `key`: `None` where it sets parts of
/// a table or cannot be parsed, and `Some(None)` where there is none.
pub open spec fn variable_text(vars: Seq<(Seq<char>, Seq<char>)>, key: Seq<char>) -> Option<
    Option<Seq<char>>,
> {
    match variable_for(vars, key) {
        None => Some(None),
        Some(v) => if v.0 == key && can_be_parsed(v.1) {
            Some(Some(v.1))
        } else {
            None
        },
    }
}

/// The text that the environment holds for the setting `key`. No setting is a table, so one
/// whose parts are set is invalid.
pub fn env_value(vars: &Vec<(String, String)>, key: &str) -> (value: Setting<String>)
    ensures
        text_was_read(value, variable_text(variables(vars@), key@)),
        value matches Setting::Given(text) ==> can_be_parsed(text@),
{
    match find_variable(vars, key) {
        None => Setting::Absent,
        Some(v) => {
            if !same_text(v.0.as_str(), key) {
                let e = plain_error("invalid type: found map");
                return Setting::Invalid(in_environment(e, key, ENV_PREFIX));
            }
            if !parsing_is_safe(v.1.as_str()) {
                let e = plain_error("the value cannot be parsed");
                return Setting::Invalid(in_environment(e, key, ENV_PREFIX));
            }
            Setting::Given(v.1.clone())
        },
    }
}

/// One layer of the configuration.
pub struct Layer {
    /// The sampling interval in seconds, as the bit pattern of a 64-bit IEEE 754 number.
    pub interval_bits: Setting<u64>,
    pub slow_interval: Setting<u64>,
    pub sudo: Setting<bool>,
    pub no_slow: Setting<bool>,
    pub pid: Setting<u32>,
    pub data_retention: Setting<u64>,
    pub log_retention: Setting<u64>,
    pub flush_interval: Setting<u64>,
    pub port: Setting<u16>,
    pub bind: Setting<String>,
}

impl Layer {
    /// A layer that says nothing.
    pub open spec fn is_empty(self) -> bool {
        &&& self.interval_bits is Absent
        &&& self.slow_interval is Absent
        &&& self.sudo is Absent
        &&& self.no_slow is Absent
        &&& self.pid is Absent
        &&& self.data_retention is Absent
        &&& self.log_retention is Absent
        &&& self.flush_interval is Absent
        &&& self.port is Absent
        &&& self.bind is Absent
    }

    /// A layer that says nothing.
    pub fn empty() -> (layer: Layer)
        ensures
            layer.is_empty(),
    {
        Layer {
            interval_bits: Setting::Absent,
            slow_interval: Setting::Absent,
            sudo: Setting::Absent,
            no_slow: Setting::Absent,
            pid: Setting::Absent,
            data_retention: Setting::Absent,
            log_retention: Setting::Absent,
            flush_interval: Setting::Absent,
            port: Setting::Absent,
            bind: Setting::Absent,
        }
    }

    /// The layer is what a TOML text says of every setting but the sampling interval.
    pub open spec fn is_of_file(self, text: Seq<char>) -> bool {
        &&& was_read(self.slow_interval, file_u64(text, "slow_interval"@))
        &&& was_read(self.sudo, file_bool(text, "sudo"@))
        &&& was_read(self.no_slow, file_bool(text, "no_slow"@))
        &&& was_read(self.pid, file_u32(text, "pid"@))
        &&& was_read(self.data_retention, file_u64(text, "data_retention"@))
        &&& was_read(self.log_retention, file_u64(text, "log_retention"@))
        &&& was_read(self.flush_interval, file_u64(text, "flush_interval"@))
        &&& was_read(self.port, file_u16(text, "port"@))
        &&& text_was_read(self.bind, file_text(text, "bind"@))
    }

    /// Reads the configuration file. The sampling interval, a floating-point number, is read by the
    /// caller.
    pub fn of_file(file: &ConfigFile, interval_bits: Setting<u64>) -> (layer: Layer)
        ensures
            layer.is_of_file(file.text@),
            layer.interval_bits == interval_bits,
    {
        let text = file.text.as_str();
        let path = file.path.as_str();
        Layer {
            interval_bits,
            slow_interval: from_file(read_file_u64(text, "slow_interval"), path),
            sudo: from_file(read_file_bool(text, "sudo"), path),
            no_slow: from_file(read_file_bool(text, "no_slow"), path),
            pid: from_file(read_file_u32(text, "pid"), path),
            data_retention: from_file(read_file_u64(text, "data_retention"), path),
            log_retention: from_file(read_file_u64(text, "log_retention"), path),
            flush_interval: from_file(read_file_u64(text, "flush_interval"), path),
            port: from_file(read_file_u16(text, "port"), path),
            bind: from_file(read_file_text(text, "bind"), path),
        }
    }

    /// The layer is what the environment says of every setting but the sampling
    /// interval.
    pub open spec fn is_of_env(self, vars: Seq<(Seq<char>, Seq<char>)>) -> bool {
        &&& was_read(self.slow_interval, env_u64(vars, "slow_interval"@))
        &&& was_read(self.sudo, env_bool(vars, "sudo"@))
        &&& was_read(self.no_slow, env_bool(vars, "no_slow"@))
        &&& was_read(self.pid, env_u32(vars, "pid"@))
        &&& was_read(self.data_retention, env_u64(vars, "data_retention"@))
        &&& was_read(self.log_retention, env_u64(vars, "log_retention"@))
        &&& was_read(self.flush_interval, env_u64(vars, "flush_interval"@))
        &&& was_read(self.port, env_u16(vars, "port"@))
        &&& text_was_read(self.bind, env_text(vars, "bind"@))
    }

    /// Reads the environment. The sampling interval, a floating-point number, is read by
    /// the caller.
    pub fn of_env(vars: &Vec<(String, String)>, interval_bits: Setting<u64>) -> (layer: Layer)
        ensures
            layer.is_of_env(variables(vars@)),
            layer.interval_bits == interval_bits,
    {
        Layer {
            interval_bits,
            slow_interval: env_setting_u64(vars, "slow_interval"),
            sudo: env_setting_bool(vars, "sudo"),
            no_slow: env_setting_bool(vars, "no_slow"),
            pid: env_setting_u32(vars, "pid"),
            data_retention: env_setting_u64(vars, "data_retention"),
            log_retention: env_setting_u64(vars, "log_retention"),
            flush_interval: env_setting_u64(vars, "flush_interval"),
            port: env_setting_u16(vars, "port"),
            bind: env_setting_text(vars, "bind"),
        }
    }
}

/// What the environment says of the setting `key` as a truth value: `None` where it is something
/// else, and `Some(None)` where it says nothing.
pub open spec fn env_bool(vars: Seq<(Seq<char>, Seq<char>)>, key: Seq<char>) -> Option<
    Option<bool>,
> {
    match variable_text(vars, key) {
        None => None,
        Some(None) => Some(None),
        Some(Some(text)) => match var_bool(text, usize::BITS) {
            Some(value) => Some(Some(value)),
            None => None,
        },
    }
}

fn env_setting_bool(vars: &Vec<(String, String)>, key: &str) -> (setting: Setting<bool>)
    ensures
        was_read(setting, env_bool(variables(vars@), key@)),
{
    match env_value(vars, key) {
        Setting::Absent => Setting::Absent,
        Setting::Given(text) => from_var(read_var_bool(text.as_str()), key),
        Setting::Invalid(e) => Setting::Invalid(e),
    }
}

/// What the environment says of the setting `key` as a number of 16 bits: `None` where it is something
/// else, and `Some(None)` where it says nothing.
pub open spec fn env_u16(vars: Seq<(Seq<char>, Seq<char>)>, key: Seq<char>) -> Option<
    Option<u16>,
> {
    match variable_text(vars, key) {
        None => None,
        Some(None) => Some(None),
        Some(Some(text)) => match var_u16(text, usize::BITS) {
            Some(value) => Some(Some(value)),
            None => None,
        },
    }
}

fn env_setting_u16(vars: &Vec<(String, String)>, key: &str) -> (setting: Setting<u16>)
    ensures
        was_read(setting, env_u16(variables(vars@), key@)),
{
    match env_value(vars, key) {
        Setting::Absent => Setting::Absent,
        Setting::Given(text) => from_var(read_var_u16(text.as_str()), key),
        Setting::Invalid(e) => Setting::Invalid(e),
    }
}

/// What the environment says of the setting `key` as a number of 32 bits: `None` where it is something
/// else, and `Some(None)` where it says nothing.
pub open spec fn env_u32(vars: Seq<(Seq<char>, Seq<char>)>, key: Seq<char>) -> Option<
    Option<u32>,
> {
    match variable_text(vars, key) {
        None => None,
        Some(None) => Some(None),
        Some(Some(text)) => match var_u32(text, usize::BITS) {
            Some(value) => Some(Some(value)),
            None => None,
        },
    }
}

fn env_setting_u32(vars: &Vec<(String, String)>, key: &str) -> (setting: Setting<u32>)
    ensures
        was_read(setting, env_u32(variables(vars@), key@)),
{
    match env_value(vars, key) {
        Setting::Absent => Setting::Absent,
        Setting::Given(text) => from_var(read_var_u32(text.as_str()), key),
        Setting::Invalid(e) => Setting::Invalid(e),
    }
}

/// What the environment says of the setting `key` as a number of 64 bits: `None` where it is something
/// else, and `Some(None)` where it says nothing.
pub open spec fn env_u64(vars: Seq<(Seq<char>, Seq<char>)>, key: Seq<char>) -> Option<
    Option<u64>,
> {
    match variable_text(vars, key) {
        None => None,
        Some(None) => Some(None),
        Some(Some(text)) => match var_u64(text, usize::BITS) {
            Some(value) => Some(Some(value)),
            None => None,
        },
    }
}

fn env_setting_u64(vars: &Vec<(String, String)>, key: &str) -> (setting: Setting<u64>)
    ensures
        was_read(setting, env_u64(variables(vars@), key@)),
{
    match env_value(vars, key) {
        Setting::Absent => Setting::Absent,
        Setting::Given(text) => from_var(read_var_u64(text.as_str()), key),
        Setting::Invalid(e) => Setting::Invalid(e),
    }
}

/// What the environment says of the setting `key` as a text: `None` where it is something
/// else, and `Some(None)` where it says nothing.
pub open spec fn env_text(vars: Seq<(Seq<char>, Seq<char>)>, key: Seq<char>) -> Option<
    Option<Seq<char>>,
> {
    match variable_text(vars, key) {
        None => None,
        Some(None) => Some(None),
        Some(Some(text)) => match var_text(text, usize::BITS) {
            Some(value) => Some(Some(value)),
            None => None,
        },
    }
}

fn env_setting_text(vars: &Vec<(String, String)>, key: &str) -> (setting: Setting<String>)
    ensures
        text_was_read(setting, env_text(variables(vars@), key@)),
{
    match env_value(vars, key) {
        Setting::Absent => Setting::Absent,
        Setting::Given(text) => from_var(read_var_text(text.as_str()), key),
        Setting::Invalid(e) => Setting::Invalid(e),
    }
}

/// Of the variables for a setting the last one counts. A variable for another setting changes
/// nothing, whatever it holds.
pub proof fn law_last_variable_counts(
    vars: Seq<(Seq<char>, Seq<char>)>,
    name: Seq<char>,
    text: Seq<char>,
    key: Seq<char>,
)
    ensures
        variable_for(Seq::empty(), key) is None,
        variable_for(vars.push((key, text)), key) == Some((key, text)),
        name != key && (name.len() <= key.len() || name.take(key.len() as int) != key
            || name[key.len() as int] != '.') ==> variable_for(vars.push((name, text)), key)
            == variable_for(vars, key),
        name.len() > key.len() && name.take(key.len() as int) == key && name[key.len() as int]
            == '.' ==> variable_for(vars.push((name, text)), key) == Some((name, text)),
{
    assert(vars.push((key, text)).drop_last() =~= vars);
    assert(vars.push((name, text)).drop_last() =~= vars);
    let dotted = key.push('.');
    if dotted.is_prefix_of(name) {
        assert(name.take(key.len() as int) =~= key) by {
            assert forall|i: int| 0 <= i < key.len() implies name[i] == key[i] by {
                assert(dotted[i] == name.subrange(0, dotted.len() as int)[i]);
            }
        }
        assert(name[key.len() as int] == name.subrange(0, dotted.len() as int)[key.len() as int]);
    }
    if name.len() > key.len() && name.take(key.len() as int) == key && name[key.len() as int]
        == '.' {
        assert(name.subrange(0, dotted.len() as int) =~= dotted) by {
            assert forall|i: int| 0 <= i < key.len() implies name[i] == key[i] by {
                assert(name.take(key.len() as int)[i] == key[i]);
            }
        }
    }
}

/// A value that is neither a list nor a table is read where it holds no backslash, and where
/// it holds only ASCII characters.
pub proof fn law_simple_values_can_be_parsed(text: Seq<char>)
    requires
        !text.contains('['),
        !text.contains('{'),
        !text.contains('\\') || forall|i: int| 0 <= i < text.len()
            ==> #[trigger] text[i] <= '\u{7f}',
    ensures
        can_be_parsed(text),
{
    let value = without_blanks(text);
    lemma_without_blanks(text);
    let cut = text.len() - value.len();
    if value.len() > 0 {
        assert(value[0] == text[cut]);
        assert(text.contains(text[cut]));
        if value[0] == '"' {
            let rest = value.skip(1);
            let n = before_mark(rest) as int;
            if n < rest.len() && rest[n] == '\\' {
                assert(text[cut + 1 + n] == '\\');
                assert(text.contains('\\'));
                assert forall|i: int| 0 <= i < rest.len() implies #[trigger] rest[i]
                    <= '\u{7f}' by {
                    assert(rest[i] == text[cut + 1 + i]);
                }
                lemma_ascii_ends_everywhere(rest, n);
            }
        }
    }
}

proof fn lemma_without_blanks(text: Seq<char>)
    ensures
        without_blanks(text).len() <= text.len(),
        without_blanks(text) == text.skip(text.len() - without_blanks(text).len()),
    decreases text.len(),
{
    if text.len() > 0 && is_blank(text[0]) {
        lemma_without_blanks(text.skip(1));
        let value = without_blanks(text);
        assert(text.skip(1).skip(text.len() - 1 - value.len()) =~= text.skip(
            text.len() - value.len(),
        ));
    } else {
        assert(text.skip(0) =~= text);
    }
}

proof fn lemma_ascii_ends_everywhere(text: Seq<char>, n: int)
    requires
        0 <= n <= text.len(),
        forall|i: int| 0 <= i < text.len() ==> #[trigger] text[i] <= '\u{7f}',
    ensures
        ends_after(text, n),
    decreases text.len(),
{
    if n > 0 {
        assert(text[0] <= '\u{7f}');
        assert forall|i: int| 0 <= i < text.len() - 1 implies #[trigger] text.skip(1)[i]
            <= '\u{7f}' by {
            assert(text.skip(1)[i] == text[i + 1]);
        }
        lemma_ascii_ends_everywhere(text.skip(1), n - 1);
    }
}

/// A variable that is named like the setting gives its whole text, where that can be parsed.
/// One that sets a part of a table makes the setting invalid.
pub proof fn law_variable_gives_its_text(
    vars: Seq<(Seq<char>, Seq<char>)>,
    key: Seq<char>,
    text: Seq<char>,
    part: Seq<char>,
)
    ensures
        variable_text(Seq::empty(), key) == Some(None::<Seq<char>>),
        can_be_parsed(text) ==> variable_text(vars.push((key, text)), key) == Some(Some(text)),
        !can_be_parsed(text) ==> variable_text(vars.push((key, text)), key) is None,
        variable_text(vars.push((key + seq!['.'] + part, text)), key) is None,
{
    law_last_variable_counts(vars, key, text, key);
    let name = key + seq!['.'] + part;
    assert(name.take(key.len() as int) =~= key);
    assert(name[key.len() as int] == '.');
    law_last_variable_counts(vars, name, text, key);
}

/// The layer of the environment holds exactly the values that the variables give, zero and
/// the empty text among them. A setting without a variable is left open, and one whose
/// variable gives no such value is invalid.
pub proof fn law_environment_layer_holds_the_values(
    layer: Layer,
    vars: Seq<(Seq<char>, Seq<char>)>,
)
    requires
        layer.is_of_env(vars),
    ensures
        variable_text(vars, "slow_interval"@) == Some(None::<Seq<char>>)
            ==> layer.slow_interval is Absent,
        variable_text(vars, "slow_interval"@) is None ==> layer.slow_interval is Invalid,
        forall|text: Seq<char>|
            variable_text(vars, "slow_interval"@) == Some(Some(text)) ==> match #[trigger] var_u64(
                text,
                usize::BITS,
            ) {
                Some(value) => layer.slow_interval == Setting::Given(value),
                None => layer.slow_interval is Invalid,
            },
        variable_text(vars, "sudo"@) == Some(None::<Seq<char>>) ==> layer.sudo is Absent,
        variable_text(vars, "sudo"@) is None ==> layer.sudo is Invalid,
        forall|text: Seq<char>|
            variable_text(vars, "sudo"@) == Some(Some(text)) ==> match #[trigger] var_bool(
                text,
                usize::BITS,
            ) {
                Some(value) => layer.sudo == Setting::Given(value),
                None => layer.sudo is Invalid,
            },
        variable_text(vars, "no_slow"@) == Some(None::<Seq<char>>) ==> layer.no_slow is Absent,
        variable_text(vars, "no_slow"@) is None ==> layer.no_slow is Invalid,
        forall|text: Seq<char>|
            variable_text(vars, "no_slow"@) == Some(Some(text)) ==> match #[trigger] var_bool(
                text,
                usize::BITS,
            ) {
                Some(value) => layer.no_slow == Setting::Given(value),
                None => layer.no_slow is Invalid,
            },
        variable_text(vars, "pid"@) == Some(None::<Seq<char>>) ==> layer.pid is Absent,
        variable_text(vars, "pid"@) is None ==> layer.pid is Invalid,
        forall|text: Seq<char>|
            variable_text(vars, "pid"@) == Some(Some(text)) ==> match #[trigger] var_u32(
                text,
                usize::BITS,
            ) {
                Some(value) => layer.pid == Setting::Given(value),
                None => layer.pid is Invalid,
            },
        variable_text(vars, "data_retention"@) == Some(None::<Seq<char>>)
            ==> layer.data_retention is Absent,
        variable_text(vars, "data_retention"@) is None ==> layer.data_retention is Invalid,
        forall|text: Seq<char>|
            variable_text(vars, "data_retention"@) == Some(Some(text)) ==> match #[trigger] var_u64(
                text,
                usize::BITS,
            ) {
                Some(value) => layer.data_retention == Setting::Given(value),
                None => layer.data_retention is Invalid,
            },
        variable_text(vars, "log_retention"@) == Some(None::<Seq<char>>)
            ==> layer.log_retention is Absent,
        variable_text(vars, "log_retention"@) is None ==> layer.log_retention is Invalid,
        forall|text: Seq<char>|
            variable_text(vars, "log_retention"@) == Some(Some(text)) ==> match #[trigger] var_u64(
                text,
                usize::BITS,
            ) {
                Some(value) => layer.log_retention == Setting::Given(value),
                None => layer.log_retention is Invalid,
            },
        variable_text(vars, "flush_interval"@) == Some(None::<Seq<char>>)
            ==> layer.flush_interval is Absent,
        variable_text(vars, "flush_interval"@) is None ==> layer.flush_interval is Invalid,
        forall|text: Seq<char>|
            variable_text(vars, "flush_interval"@) == Some(Some(text)) ==> match #[trigger] var_u64(
                text,
                usize::BITS,
            ) {
                Some(value) => layer.flush_interval == Setting::Given(value),
                None => layer.flush_interval is Invalid,
            },
        variable_text(vars, "port"@) == Some(None::<Seq<char>>) ==> layer.port is Absent,
        variable_text(vars, "port"@) is None ==> layer.port is Invalid,
        forall|text: Seq<char>|
            variable_text(vars, "port"@) == Some(Some(text)) ==> match #[trigger] var_u16(
                text,
                usize::BITS,
            ) {
                Some(value) => layer.port == Setting::Given(value),
                None => layer.port is Invalid,
            },
        variable_text(vars, "bind"@) == Some(None::<Seq<char>>) ==> layer.bind is Absent,
        variable_text(vars, "bind"@) is None ==> layer.bind is Invalid,
        forall|text: Seq<char>|
            variable_text(vars, "bind"@) == Some(Some(text)) ==> match #[trigger] var_text(
                text,
                usize::BITS,
            ) {
                Some(value) => layer.bind is Given && layer.bind->Given_0@ == value,
                None => layer.bind is Invalid,
            },
{
}

/// The layer of the file holds exactly the values that stand in the file, zero and the empty
/// text among them. A setting that the file leaves out is left open, and one that has no such
/// value is invalid.
pub proof fn law_file_layer_holds_the_values(layer: Layer, text: Seq<char>)
    requires
        layer.is_of_file(text),
    ensures
        match file_u64(text, "slow_interval"@) {
            Some(Some(value)) => layer.slow_interval == Setting::Given(value),
            Some(None) => layer.slow_interval is Absent,
            None => layer.slow_interval is Invalid,
        },
        match file_bool(text, "sudo"@) {
            Some(Some(value)) => layer.sudo == Setting::Given(value),
            Some(None) => layer.sudo is Absent,
            None => layer.sudo is Invalid,
        },
        match file_bool(text, "no_slow"@) {
            Some(Some(value)) => layer.no_slow == Setting::Given(value),
            Some(None) => layer.no_slow is Absent,
            None => layer.no_slow is Invalid,
        },
        match file_u32(text, "pid"@) {
            Some(Some(value)) => layer.pid == Setting::Given(value),
            Some(None) => layer.pid is Absent,
            None => layer.pid is Invalid,
        },
        match file_u64(text, "data_retention"@) {
            Some(Some(value)) => layer.data_retention == Setting::Given(value),
            Some(None) => layer.data_retention is Absent,
            None => layer.data_retention is Invalid,
        },
        match file_u64(text, "log_retention"@) {
            Some(Some(value)) => layer.log_retention == Setting::Given(value),
            Some(None) => layer.log_retention is Absent,
            None => layer.log_retention is Invalid,
        },
        match file_u64(text, "flush_interval"@) {
            Some(Some(value)) => layer.flush_interval == Setting::Given(value),
            Some(None) => layer.flush_interval is Absent,
            None => layer.flush_interval is Invalid,
        },
        match file_u16(text, "port"@) {
            Some(Some(value)) => layer.port == Setting::Given(value),
            Some(None) => layer.port is Absent,
            None => layer.port is Invalid,
        },
        match file_text(text, "bind"@) {
            Some(Some(value)) => layer.bind is Given && layer.bind->Given_0@ == value,
            Some(None) => layer.bind is Absent,
            None => layer.bind is Invalid,
        },
{
}

/// The settings of the environment are the names and values that were given, in their order.
pub proof fn law_variables_stand_as_given(vars: Seq<(String, String)>, i: int)
    requires
        0 <= i < vars.len(),
    ensures
        variables(vars).len() == vars.len(),
        variables(vars)[i].0 == vars[i].0@,
        variables(vars)[i].1 == vars[i].1@,
{
}

/// A quoted text in which an escape sequence comes right behind a character that is not
/// ASCII, the first of that kind, is not handed to the parser.
pub proof fn law_escape_behind_a_wide_character_is_refused(
    front: Seq<char>,
    wide: char,
    escaped: char,
    tail: Seq<char>,
)
    requires
        forall|i: int|
            0 <= i < front.len() ==> (#[trigger] front[i] == '\t' || ' ' <= front[i] < '\u{7f}')
                && front[i] != '\\' && front[i] != '"',
        wide > '\u{7f}',
        !tail.contains('\\'),
        !tail.contains('"'),
    ensures
        !can_be_parsed(
            seq!['"'] + front + seq![wide, '\\', escaped] + tail + seq!['"'],
        ),
{
    let rest = seq![wide, '\\', escaped] + tail + seq!['"'];
    let text = seq!['"'] + front + seq![wide, '\\', escaped] + tail + seq!['"'];
    assert(without_blanks(text) == text);
    assert(text.skip(1) =~= front + rest);
    lemma_wide_character_stops(front, rest, wide, escaped, tail);
}

proof fn lemma_wide_character_stops(
    front: Seq<char>,
    rest: Seq<char>,
    wide: char,
    escaped: char,
    tail: Seq<char>,
)
    requires
        rest == seq![wide, '\\', escaped] + tail + seq!['"'],
        forall|i: int|
            0 <= i < front.len() ==> (#[trigger] front[i] == '\t' || ' ' <= front[i] < '\u{7f}')
                && front[i] != '\\' && front[i] != '"',
        wide > '\u{7f}',
        !tail.contains('\\'),
        !tail.contains('"'),
    ensures
        before_mark(front + rest) == front.len() + 1,
        is_closed(front + rest, false),
        !ends_after(front + rest, front.len() as int + 1),
        stops_at_escape(front + rest),
    decreases front.len(),
{
    let text = front + rest;
    if front.len() == 0 {
        assert(text =~= rest);
        assert(rest.skip(1) =~= seq!['\\', escaped] + tail + seq!['"']);
        assert(rest.skip(1).skip(1) =~= seq![escaped] + tail + seq!['"']);
        assert(rest.skip(1).skip(1).skip(1) =~= tail + seq!['"']);
        lemma_tail_is_closed(tail);
        reveal_with_fuel(before_mark, 3);
        reveal_with_fuel(is_closed, 4);
        reveal_with_fuel(ends_after, 3);
    } else {
        let fewer = front.skip(1);
        assert forall|i: int| 0 <= i < fewer.len() implies (#[trigger] fewer[i] == '\t' || ' '
            <= fewer[i] < '\u{7f}') && fewer[i] != '\\' && fewer[i] != '"' by {
            assert(fewer[i] == front[i + 1]);
        }
        lemma_wide_character_stops(fewer, rest, wide, escaped, tail);
        assert(text.skip(1) =~= fewer + rest);
        assert(front[0] != '\\');
    }
    let n = front.len() as int + 1;
    assert(text[n] == '\\');
    assert forall|i: int| 0 <= i < n implies may_be_quoted(#[trigger] text[i]) by {
        if i < front.len() {
            assert(text[i] == front[i]);
        } else {
            assert(text[i] == wide);
        }
    }
}

proof fn lemma_tail_is_closed(tail: Seq<char>)
    requires
        !tail.contains('\\'),
        !tail.contains('"'),
    ensures
        is_closed(tail + seq!['"'], false),
    decreases tail.len(),
{
    let text = tail + seq!['"'];
    if tail.len() > 0 {
        assert(tail.contains(tail[0]));
        assert(text.skip(1) =~= tail.skip(1) + seq!['"']);
        assert forall|c: char| tail.skip(1).contains(c) implies tail.contains(c) by {
            let i = choose|i: int| 0 <= i < tail.skip(1).len() && tail.skip(1)[i] == c;
            assert(tail[i + 1] == c);
        }
        lemma_tail_is_closed(tail.skip(1));
    }
}

/// A list or a table with more than thirty-two opening brackets and braces is not handed to
/// the parser. One with no more is, where it holds only ASCII characters.
pub proof fn law_deep_lists_are_refused(text: Seq<char>)
    requires
        text.len() > 0,
        text[0] == '[' || text[0] == '{',
    ensures
        text.filter(|c: char| c == '[' || c == '{').len() > 32 ==> !can_be_parsed(text),
        text.filter(|c: char| c == '[' || c == '{').len() <= 32 && (forall|i: int|
            0 <= i < text.len() ==> #[trigger] text[i] <= '\u{7f}') ==> can_be_parsed(text),
{
    lemma_openings_by_filter(text);
    assert(without_blanks(text) == text);
    if forall|i: int| 0 <= i < text.len() ==> #[trigger] text[i] <= '\u{7f}' {
        assert forall|i: int| 0 <= i < text.len() implies is_ascii_char(#[trigger] text[i]) by {
            assert(text[i] <= '\u{7f}');
        }
    }
}

proof fn lemma_openings_by_filter(text: Seq<char>)
    ensures
        openings(text) == text.filter(|c: char| c == '[' || c == '{').len(),
    decreases text.len(),
{
    reveal(Seq::filter);
    if text.len() > 0 {
        lemma_openings_by_filter(text.drop_last());
    }
}

/// A value that begins, behind white space, with anything but a quote, a bracket or a brace
/// can be parsed, whatever follows. So can one that is white space alone.
pub proof fn law_bare_values_can_be_parsed(blanks: Seq<char>, value: Seq<char>)
    requires
        forall|i: int|
            0 <= i < blanks.len() ==> #[trigger] blanks[i] == ' ' || blanks[i] == '\t' || blanks[i]
                == '\n' || blanks[i] == '\u{c}' || blanks[i] == '\r',
        value.len() > 0 ==> value[0] != '"' && value[0] != '[' && value[0] != '{' && !is_blank(
            value[0],
        ),
    ensures
        can_be_parsed(blanks + value),
{
    lemma_blanks_in_front(blanks, value);
}

proof fn lemma_blanks_in_front(blanks: Seq<char>, value: Seq<char>)
    requires
        forall|i: int| 0 <= i < blanks.len() ==> is_blank(#[trigger] blanks[i]),
        value.len() > 0 ==> !is_blank(value[0]),
    ensures
        without_blanks(blanks + value) == value,
    decreases blanks.len(),
{
    let text = blanks + value;
    if blanks.len() == 0 {
        assert(text =~= value);
    } else {
        assert(is_blank(blanks[0]));
        assert(text.skip(1) =~= blanks.skip(1) + value);
        assert forall|i: int| 0 <= i < blanks.len() - 1 implies is_blank(
            #[trigger] blanks.skip(1)[i],
        ) by {
            assert(blanks.skip(1)[i] == blanks[i + 1]);
        }
        lemma_blanks_in_front(blanks.skip(1), value);
    }
}

/// A quoted text in which only ASCII characters stand before the first escape sequence can be
/// parsed, whatever follows, and so can one without any.
pub proof fn law_quoted_values_can_be_parsed(front: Seq<char>, rest: Seq<char>)
    requires
        forall|i: int| 0 <= i < front.len() ==> #[trigger] front[i] != '\\' && front[i] != '"',
        rest.len() == 0 || rest[0] == '"' || (rest[0] == '\\' && forall|i: int|
            0 <= i < front.len() ==> #[trigger] front[i] <= '\u{7f}'),
    ensures
        can_be_parsed(seq!['"'] + front + rest),
{
    let text = seq!['"'] + front + rest;
    let body = front + rest;
    assert(without_blanks(text) == text);
    assert(text.skip(1) =~= body);
    lemma_first_mark(front, rest);
    if rest.len() > 0 && rest[0] == '\\' {
        lemma_ascii_front_ends(front, rest);
    }
}

proof fn lemma_first_mark(front: Seq<char>, rest: Seq<char>)
    requires
        forall|i: int| 0 <= i < front.len() ==> #[trigger] front[i] != '\\' && front[i] != '"',
        rest.len() == 0 || rest[0] == '"' || rest[0] == '\\',
    ensures
        before_mark(front + rest) == front.len(),
    decreases front.len(),
{
    let text = front + rest;
    if front.len() > 0 {
        assert(front[0] != '\\');
        assert(text.skip(1) =~= front.skip(1) + rest);
        assert forall|i: int| 0 <= i < front.len() - 1 implies #[trigger] front.skip(1)[i] != '\\'
            && front.skip(1)[i] != '"' by {
            assert(front.skip(1)[i] == front[i + 1]);
        }
        lemma_first_mark(front.skip(1), rest);
    }
}

proof fn lemma_ascii_front_ends(front: Seq<char>, rest: Seq<char>)
    requires
        forall|i: int| 0 <= i < front.len() ==> #[trigger] front[i] <= '\u{7f}',
    ensures
        ends_after(front + rest, front.len() as int),
    decreases front.len(),
{
    let text = front + rest;
    if front.len() > 0 {
        assert(front[0] <= '\u{7f}');
        assert(text.skip(1) =~= front.skip(1) + rest);
        assert forall|i: int| 0 <= i < front.len() - 1 implies #[trigger] front.skip(1)[i]
            <= '\u{7f}' by {
            assert(front.skip(1)[i] == front[i + 1]);
        }
        lemma_ascii_front_ends(front.skip(1), rest);
    }
}

} // verus!
