use vstd::prelude::*;

use crate::text::{decimal, string_push, trim_bounds, trimmed, usize_to_string};

verus! {

/// Whether a character is an ASCII decimal digit.
pub open spec fn is_ascii_digit(c: char) -> bool {
    '0' <= c <= '9'
}

/// Whether a character is an ASCII letter or digit.
pub open spec fn is_ascii_alphanumeric(c: char) -> bool {
    ||| '0' <= c <= '9'
    ||| 'a' <= c <= 'z'
    ||| 'A' <= c <= 'Z'
}

/// The rule names are finished with: an empty name or `default` becomes `_default`, and a name
/// that starts with a digit gets an underscore in front.
pub open spec fn spec_sanitize_name(name: Seq<char>) -> Seq<char> {
    if name == "default"@ || name.len() == 0 {
        "_default"@
    } else if is_ascii_digit(name[0]) {
        seq!['_'] + name
    } else {
        name
    }
}

/// A space becomes an underscore; every other character stays.
pub open spec fn space_to_underscore(c: char) -> char {
    if c == ' ' {
        '_'
    } else {
        c
    }
}

/// Characters of names that are kept as they are in obj files and smd materials: ASCII letters,
/// digits and `-`; any other character becomes `_`.
pub open spec fn ascii_name_char(c: char) -> char {
    if is_ascii_alphanumeric(c) || c == '-' {
        c
    } else {
        '_'
    }
}

/// Characters that may not appear in a quoted smd bone name, because they are not allowed in
/// paths or would break the quoting.
pub open spec fn is_smd_bone_forbidden(c: char) -> bool {
    ||| c == '/'
    ||| c == '?'
    ||| c == '<'
    ||| c == '>'
    ||| c == '\\'
    ||| c == ':'
    ||| c == '*'
    ||| c == '|'
    ||| c == '"'
    ||| c == '\r'
    ||| c == '\n'
}

/// Characters of smd bone names: the forbidden ones become `_`, the rest stay.
pub open spec fn smd_bone_char(c: char) -> char {
    if is_smd_bone_forbidden(c) {
        '_'
    } else {
        c
    }
}

fn is_digit(c: char) -> (digit: bool)
    ensures
        digit == is_ascii_digit(c),
{
    '0' <= c && c <= '9'
}

fn ascii_name_char_of(c: char) -> (mapped: char)
    ensures
        mapped == ascii_name_char(c),
{
    if ('0' <= c && c <= '9') || ('a' <= c && c <= 'z') || ('A' <= c && c <= 'Z') || c == '-' {
        c
    } else {
        '_'
    }
}

fn smd_bone_char_of(c: char) -> (mapped: char)
    ensures
        mapped == smd_bone_char(c),
{
    match c {
        '/' | '?' | '<' | '>' | '\\' | ':' | '*' | '|' | '"' | '\r' | '\n' => '_',
        _ => c,
    }
}

/// Replaces every space of a name with an underscore, the first step of cleaning bone and
/// material names.
pub fn replace_spaces(name: &str) -> (replaced: String)
    ensures
        replaced@ == name@.map_values(|c: char| space_to_underscore(c)),
{
    let len = name.unicode_len();
    let mut out = String::new();
    let mut i: usize = 0;
    while i < len
        invariant
            len == name@.len(),
            i <= len,
            out@ == name@.subrange(0, i as int).map_values(|c: char| space_to_underscore(c)),
        decreases len - i,
    {
        let c = name.get_char(i);
        string_push(&mut out, if c == ' ' { '_' } else { c });
        proof {
            assert(name@.subrange(0, i + 1).map_values(|c: char| space_to_underscore(c))
                =~= name@.subrange(0, i as int).map_values(|c: char| space_to_underscore(c)).push(
                space_to_underscore(name@[i as int]),
            ));
        }
        i += 1;
    }
    proof {
        assert(name@.subrange(0, len as int) =~= name@);
    }
    out
}

/// Finishes a name whose spaces are replaced: an empty name or `default` becomes `_default`,
/// and a leading digit gets an underscore put in front.
fn finish_name(name: &str) -> (finished: String)
    ensures
        finished@ == spec_sanitize_name(name@),
{
    let len = name.unicode_len();
    proof {
        reveal_strlit("default");
        reveal_strlit("_default");
        reveal_strlit("_");
    }
    if len == 0 || equals_default(name) {
        String::from_str("_default")
    } else if is_digit(name.get_char(0)) {
        let mut out = String::from_str("_");
        out.append(name);
        out
    } else {
        String::from_str(name)
    }
}

/// Whether a name is exactly `default`.
fn equals_default(name: &str) -> (same: bool)
    ensures
        same == (name@ == "default"@),
{
    proof {
        reveal_strlit("default");
    }
    let expected = "default";
    let len = name.unicode_len();
    if len != 7 {
        return false;
    }
    let mut i: usize = 0;
    while i < 7
        invariant
            len == name@.len() == 7,
            expected@ == "default"@,
            expected@.len() == 7,
            i <= 7,
            forall|k: int| 0 <= k < i ==> name@[k] == expected@[k],
        decreases 7 - i,
    {
        if name.get_char(i) != expected.get_char(i) {
            return false;
        }
        i += 1;
    }
    assert(name@ =~= expected@);
    true
}

/// The cleaned form of a bone or material name: its spaces become underscores, then an empty
/// name or `default` becomes `_default` and a name that starts with a digit gets an underscore
/// in front. Nothing else is changed: characters that file systems refuse in file names (such
/// as `/`, `:` or `*`) are kept as they are, since no file-name cleaning is part of this step.
pub open spec fn spec_clean_name(name: Seq<char>) -> Seq<char> {
    spec_sanitize_name(name.map_values(|c: char| space_to_underscore(c)))
}

/// Cleans a bone name: spaces become underscores, an empty name or `default` becomes
/// `_default`, and a leading digit gets an underscore in front. Characters that file systems
/// refuse in file names are kept; no file-name cleaning is done here.
pub fn sanitize_bone_name(name: String) -> (cleaned: String)
    ensures
        cleaned@ == spec_clean_name(name@),
{
    let replaced = replace_spaces(name.as_str());
    finish_name(replaced.as_str())
}

/// Cleans a material name: spaces become underscores, an empty name or `default` becomes
/// `_default`, and a leading digit gets an underscore in front. Characters that file systems
/// refuse in file names are kept; no file-name cleaning is done here.
pub fn sanitize_material_name(name: &str) -> (cleaned: String)
    ensures
        cleaned@ == spec_clean_name(name@),
{
    let replaced = replace_spaces(name);
    finish_name(replaced.as_str())
}

/// Maps the trimmed characters of a string through the character rule of `kind`.
fn map_trimmed(s: &str, kind: u8) -> (mapped: String)
    requires
        kind < 2,
    ensures
        kind == 0 ==> mapped@ == trimmed(s@).map_values(|c: char| ascii_name_char(c)),
        kind == 1 ==> mapped@ == trimmed(s@).map_values(|c: char| smd_bone_char(c)),
{
    let (start, end) = trim_bounds(s);
    let ghost t = s@.subrange(start as int, end as int);
    let mut out = String::new();
    let mut i: usize = start;
    while i < end
        invariant
            start <= i <= end <= s@.len(),
            t == s@.subrange(start as int, end as int),
            kind < 2,
            kind == 0 ==> out@ == t.subrange(0, i - start).map_values(|c: char| ascii_name_char(c)),
            kind == 1 ==> out@ == t.subrange(0, i - start).map_values(|c: char| smd_bone_char(c)),
        decreases end - i,
    {
        let c = s.get_char(i);
        let mapped = if kind == 0 {
            ascii_name_char_of(c)
        } else {
            smd_bone_char_of(c)
        };
        string_push(&mut out, mapped);
        proof {
            assert(t.subrange(0, i + 1 - start).map_values(|c: char| ascii_name_char(c))
                =~= t.subrange(0, i - start).map_values(|c: char| ascii_name_char(c)).push(
                ascii_name_char(t[i - start]),
            ));
            assert(t.subrange(0, i + 1 - start).map_values(|c: char| smd_bone_char(c))
                =~= t.subrange(0, i - start).map_values(|c: char| smd_bone_char(c)).push(
                smd_bone_char(t[i - start]),
            ));
        }
        i += 1;
    }
    proof {
        assert(t.subrange(0, end - start) =~= t);
    }
    out
}

/// Sanitizes an obj name: trims whitespace at both ends, then keeps ASCII letters, digits and
/// `-` and turns every other character into `_`.
pub fn sanitize_obj_str(str: &str) -> (cleaned: String)
    ensures
        cleaned@ == trimmed(str@).map_values(|c: char| ascii_name_char(c)),
{
    map_trimmed(str, 0)
}

/// Sanitizes a smd bone name: trims whitespace at both ends, then turns path and quoting
/// characters into `_`.
pub fn sanitize_smd_bone_str(str: &str) -> (cleaned: String)
    ensures
        cleaned@ == trimmed(str@).map_values(|c: char| smd_bone_char(c)),
{
    map_trimmed(str, 1)
}

/// Sanitizes a smd material name: trims whitespace at both ends, then keeps ASCII letters,
/// digits and `-` and turns every other character into `_`.
pub fn sanitize_smd_mat_str(str: &str) -> (cleaned: String)
    ensures
        cleaned@ == trimmed(str@).map_values(|c: char| ascii_name_char(c)),
{
    map_trimmed(str, 0)
}

/// The maya range covering indices `0..len`: `0` for at most one element, else `0:` followed by
/// the last index.
pub open spec fn spec_maya_range(len: nat) -> Seq<char> {
    if len <= 1 {
        seq!['0']
    } else {
        seq!['0', ':'] + decimal((len - 1) as nat)
    }
}

/// Utility method to format a maya range.
pub fn maya_range(len: usize) -> (range: String)
    ensures
        range@ == spec_maya_range(len as nat),
{
    proof {
        reveal_strlit("0");
        reveal_strlit("0:");
    }
    if len <= 1 {
        String::from_str("0")
    } else {
        let mut out = String::from_str("0:");
        let last = usize_to_string(len - 1);
        out.append(last.as_str());
        out
    }
}

} // verus!
