//! Implicit tag resolution for plain scalars (YAML 1.1 semantics), plus an
//! extra integer pattern covering `0o` octal forms used by the
//! `quoted-strings` rule.

use vstd::prelude::*;
use crate::text::{contains_char, str_chars};

verus! {

pub const DEFAULT_SCALAR_TAG: &'static str = "tag:yaml.org,2002:str";

/// Whether the regular expression `pattern` matches somewhere in `text`, or
/// `None` when `pattern` is not a valid expression, as the `regex` crate
/// decides.
pub uninterp spec fn regex_match(pattern: Seq<char>, text: Seq<char>) -> Option<bool>;

/// `regex::Regex::new` on `pattern`, then `Regex::is_match` on `text`.
#[verifier::external_body]
pub(crate) fn regex_is_match(pattern: &str, text: &str) -> (r: Option<bool>)
    ensures
        r == regex_match(pattern@, text@),
{
    match regex::Regex::new(pattern) {
        Ok(re) => Some(re.is_match(text)),
        Err(_) => None,
    }
}

/// The implicit resolvers in the order in which they are tried: the tag,
/// its pattern, the first characters it applies to, and whether it applies
/// to the empty value.
pub open spec fn resolvers() -> Seq<(Seq<char>, Seq<char>, Seq<char>, bool)> {
    seq![
        (r"tag:yaml.org,2002:bool"@, r"^(?:yes|Yes|YES|no|No|NO|true|True|TRUE|false|False|FALSE|on|On|ON|off|Off|OFF)$"@, r"yYnNtTfFoO"@, false),
        (r"tag:yaml.org,2002:float"@, r"^(?:[-+]?(?:[0-9][0-9_]*)\.[0-9_]*(?:[eE][-+][0-9]+)?|\.[0-9][0-9_]*(?:[eE][-+][0-9]+)?|[-+]?[0-9][0-9_]*(?::[0-5]?[0-9])+\.[0-9_]*|[-+]?\.(?:inf|Inf|INF)|\.(?:nan|NaN|NAN))$"@, r"-+0123456789."@, false),
        (r"tag:yaml.org,2002:int"@, r"^(?:[-+]?0b[0-1_]+|[-+]?0[0-7_]+|[-+]?(?:0|[1-9][0-9_]*)|[-+]?0x[0-9a-fA-F_]+|[-+]?[1-9][0-9_]*(?::[0-5]?[0-9])+)$"@, r"-+0123456789"@, false),
        (r"tag:yaml.org,2002:merge"@, r"^(?:<<)$"@, r"<"@, false),
        (r"tag:yaml.org,2002:null"@, r"^(?:~|null|Null|NULL|)$"@, r"~nN"@, true),
        (r"tag:yaml.org,2002:timestamp"@, r"^(?:[0-9][0-9][0-9][0-9]-[0-9][0-9]-[0-9][0-9]|[0-9][0-9][0-9][0-9]-[0-9][0-9]?-[0-9][0-9]?(?:[Tt]|[ \t]+)[0-9][0-9]?:[0-9][0-9]:[0-9][0-9](?:\.[0-9]*)?(?:[ \t]*(?:Z|[-+][0-9][0-9]?(?::[0-9][0-9])?))?)$"@, r"0123456789"@, false),
        (r"tag:yaml.org,2002:value"@, r"^(?:=)$"@, r"="@, false),
        (r"tag:yaml.org,2002:yaml"@, r"^(?:!|&|\*)$"@, r"!&*"@, false),
        (r"tag:yaml.org,2002:int"@, r"^(?:[-+]?0b[0-1_]+|[-+]?0o?[0-7_]+|[-+]?0[0-7_]+|[-+]?(?:0|[1-9][0-9_]*)|[-+]?0x[0-9a-fA-F_]+|[-+]?[1-9][0-9_]*(?::[0-5]?[0-9])+)$"@, r"-+0123456789"@, false),
    ]
}

fn resolver_table() -> (r: Vec<(&'static str, &'static str, &'static str, bool)>)
    ensures
        r@.len() == resolvers().len(),
        forall|i: int|
            0 <= i < r@.len() ==> (#[trigger] r@[i]).0@ == resolvers()[i].0 && r@[i].1@
                == resolvers()[i].1 && r@[i].2@ == resolvers()[i].2 && r@[i].3 == resolvers()[i].3,
{
    let mut v: Vec<(&'static str, &'static str, &'static str, bool)> = Vec::new();
    v.push((r"tag:yaml.org,2002:bool", r"^(?:yes|Yes|YES|no|No|NO|true|True|TRUE|false|False|FALSE|on|On|ON|off|Off|OFF)$", r"yYnNtTfFoO", false));
    v.push((r"tag:yaml.org,2002:float", r"^(?:[-+]?(?:[0-9][0-9_]*)\.[0-9_]*(?:[eE][-+][0-9]+)?|\.[0-9][0-9_]*(?:[eE][-+][0-9]+)?|[-+]?[0-9][0-9_]*(?::[0-5]?[0-9])+\.[0-9_]*|[-+]?\.(?:inf|Inf|INF)|\.(?:nan|NaN|NAN))$", r"-+0123456789.", false));
    v.push((r"tag:yaml.org,2002:int", r"^(?:[-+]?0b[0-1_]+|[-+]?0[0-7_]+|[-+]?(?:0|[1-9][0-9_]*)|[-+]?0x[0-9a-fA-F_]+|[-+]?[1-9][0-9_]*(?::[0-5]?[0-9])+)$", r"-+0123456789", false));
    v.push((r"tag:yaml.org,2002:merge", r"^(?:<<)$", r"<", false));
    v.push((r"tag:yaml.org,2002:null", r"^(?:~|null|Null|NULL|)$", r"~nN", true));
    v.push((r"tag:yaml.org,2002:timestamp", r"^(?:[0-9][0-9][0-9][0-9]-[0-9][0-9]-[0-9][0-9]|[0-9][0-9][0-9][0-9]-[0-9][0-9]?-[0-9][0-9]?(?:[Tt]|[ \t]+)[0-9][0-9]?:[0-9][0-9]:[0-9][0-9](?:\.[0-9]*)?(?:[ \t]*(?:Z|[-+][0-9][0-9]?(?::[0-9][0-9])?))?)$", r"0123456789", false));
    v.push((r"tag:yaml.org,2002:value", r"^(?:=)$", r"=", false));
    v.push((r"tag:yaml.org,2002:yaml", r"^(?:!|&|\*)$", r"!&*", false));
    v.push((r"tag:yaml.org,2002:int", r"^(?:[-+]?0b[0-1_]+|[-+]?0o?[0-7_]+|[-+]?0[0-7_]+|[-+]?(?:0|[1-9][0-9_]*)|[-+]?0x[0-9a-fA-F_]+|[-+]?[1-9][0-9_]*(?::[0-5]?[0-9])+)$", r"-+0123456789", false));
    v
}

/// Whether the resolver `r` applies to `value`: by its first character, or
/// to the empty value if it says so.
pub open spec fn resolver_applies(r: (Seq<char>, Seq<char>, Seq<char>, bool), value: Seq<char>) -> bool {
    if value.len() == 0 {
        r.3
    } else {
        r.2.contains(value[0])
    }
}

/// The tag of the first resolver from `i` on that applies and matches.
pub open spec fn resolve_from(value: Seq<char>, i: int) -> Seq<char>
    decreases resolvers().len() - i,
{
    if i < 0 || i >= resolvers().len() {
        DEFAULT_SCALAR_TAG@
    } else if resolver_applies(resolvers()[i], value) && regex_match(resolvers()[i].1, value)
        == Some(true) {
        resolvers()[i].0
    } else {
        resolve_from(value, i + 1)
    }
}

/// Resolve the implicit tag of a plain scalar value.
pub fn resolve_scalar_tag(value: &str) -> (r: &'static str)
    ensures
        r@ == resolve_from(value@, 0),
{
    let table = resolver_table();
    let v = str_chars(value);
    let mut i: usize = 0;
    while i < table.len()
        invariant
            i <= table@.len(),
            table@.len() == resolvers().len(),
            v@ == value@,
            forall|k: int|
                0 <= k < table@.len() ==> (#[trigger] table@[k]).0@ == resolvers()[k].0 && table@[k].1@
                    == resolvers()[k].1 && table@[k].2@ == resolvers()[k].2 && table@[k].3
                    == resolvers()[k].3,
            resolve_from(value@, i as int) == resolve_from(value@, 0),
        decreases table@.len() - i,
    {
        let (tag, pattern, first, empty) = table[i];
        let applicable = if v.len() == 0 {
            empty
        } else {
            let f = str_chars(first);
            contains_char(f.as_slice(), v[0])
        };
        if applicable {
            match regex_is_match(pattern, value) {
                Some(true) => {
                    return tag;
                },
                _ => {},
            }
        }
        i = i + 1;
    }
    DEFAULT_SCALAR_TAG
}

} // verus!
