//! Autocorrection for the configuration file: recognise unsupported field
//! names in the raw text and report, for each, the supported field to use
//! instead.

use crate::cmdline::is_whitespace;
use crate::cmdline::is_whitespace_char;
use vstd::prelude::*;

verus! {

/// The text with every whitespace character removed.
pub open spec fn strip_whitespace(s: Seq<char>) -> Seq<char> {
    s.filter(|c: char| !is_whitespace_char(c))
}

/// Whether `needle` occurs contiguously inside `hay`.
pub open spec fn contains_seq(hay: Seq<char>, needle: Seq<char>) -> bool {
    exists|i: int|
        0 <= i <= hay.len() - needle.len() && #[trigger] hay.subrange(i, i + needle.len())
            == needle
}

/// The text a present field leaves once whitespace is gone: its name
/// immediately followed by '='.
pub open spec fn field_marker(field: Seq<char>) -> Seq<char> {
    field + seq!['=']
}

/// Whether the config text, stripped of whitespace, contains the field's
/// marker.
pub open spec fn spec_field_exists(config: Seq<char>, field: Seq<char>) -> bool {
    contains_seq(strip_whitespace(config), field_marker(field))
}

/// The aliases of `aliases` that occur as fields in the config text.
pub open spec fn offending(aliases: Seq<Seq<char>>, config: Seq<char>) -> Seq<Seq<char>> {
    aliases.filter(|f: Seq<char>| spec_field_exists(config, f))
}

/// The unsupported aliases of the `uses` field.
pub open spec fn uses_aliases() -> Seq<Seq<char>> {
    seq!["use"@, "needs"@, "dependencies"@, "before"@, "depends"@]
}

/// The unsupported aliases of the `run` field.
pub open spec fn run_aliases() -> Seq<Seq<char>> {
    seq!["command"@, "cmd"@, "script"@]
}

/// One warning: an unsupported field that occurs in the config text, and
/// the supported field to use instead.
pub struct CorrectionWarning {
    pub field: String,
    pub replacement: String,
}

fn str_to_chars(s: &str) -> (r: Vec<char>)
    ensures
        r@ == s@,
{
    let n = s.unicode_len();
    let mut r: Vec<char> = Vec::new();
    let mut i: usize = 0;
    while i < n
        invariant
            i <= n,
            n == s@.len(),
            r@ == s@.take(i as int),
        decreases n - i,
    {
        r.push(s.get_char(i));
        proof {
            assert(r@ =~= s@.take(i + 1));
        }
        i += 1;
    }
    proof {
        assert(s@.take(n as int) =~= s@);
    }
    r
}

/// Relies on String: FromIterator<char>: collecting chars yields the string
/// of exactly those chars.
#[verifier::external_body]
fn string_from_chars(v: &Vec<char>) -> (r: String)
    ensures
        r@ == v@,
{
    v.iter().collect()
}

/// Remove every whitespace character from the text.
pub fn remove_whitespace(s: &str) -> (r: String)
    ensures
        r@ == strip_whitespace(s@),
{
    let chars = str_to_chars(s);
    let mut kept: Vec<char> = Vec::new();
    let mut i: usize = 0;
    while i < chars.len()
        invariant
            i <= chars@.len(),
            chars@ == s@,
            kept@ == strip_whitespace(s@.take(i as int)),
        decreases chars@.len() - i,
    {
        let c = chars[i];
        proof {
            assert(s@.take(i + 1).drop_last() =~= s@.take(i as int));
            assert(s@.take(i + 1).last() == s@[i as int]);
        }
        if !is_whitespace(c) {
            kept.push(c);
        }
        proof {
            reveal_with_fuel(Seq::<_>::filter, 2);
            assert(kept@ =~= strip_whitespace(s@.take(i + 1)));
        }
        i += 1;
    }
    proof {
        assert(s@.take(s@.len() as int) =~= s@);
    }
    string_from_chars(&kept)
}

fn match_at(hay: &Vec<char>, needle: &Vec<char>, i: usize) -> (r: bool)
    requires
        i + needle@.len() <= hay@.len(),
    ensures
        r == (hay@.subrange(i as int, i as int + needle@.len() as int) == needle@),
{
    let n = needle.len();
    let h = hay.len();
    let mut j: usize = 0;
    while j < n
        invariant
            j <= n,
            n == needle@.len(),
            h == hay@.len(),
            i + n <= hay@.len(),
            forall|l: int| 0 <= l < j ==> hay@[i + l] == needle@[l],
        decreases n - j,
    {
        if hay[i + j] != needle[j] {
            proof {
                assert(hay@.subrange(i as int, i as int + n as int)[j as int] == hay@[i + j]);
            }
            return false;
        }
        j += 1;
    }
    proof {
        assert(hay@.subrange(i as int, i as int + n as int) =~= needle@);
    }
    true
}

fn contains_chars(hay: &Vec<char>, needle: &Vec<char>) -> (r: bool)
    ensures
        r == contains_seq(hay@, needle@),
{
    let n = needle.len();
    let h = hay.len();
    if n > h {
        return false;
    }
    if n == 0 {
        proof {
            assert(hay@.subrange(0, 0 + needle@.len() as int) =~= needle@);
            assert(contains_seq(hay@, needle@));
        }
        return true;
    }
    let mut i: usize = 0;
    while i <= h - n
        invariant
            h == hay@.len(),
            n == needle@.len(),
            1 <= n <= h,
            i <= h - n + 1,
            forall|k: int|
                0 <= k < i ==> #[trigger] hay@.subrange(k, k + needle@.len() as int) != needle@,
        decreases h - n - i + 1,
    {
        if match_at(hay, needle, i) {
            return true;
        }
        i += 1;
    }
    false
}

/// Whether the config text, with all whitespace removed, contains the
/// field name immediately followed by '='.
pub fn field_exists(config: &str, field_name: &str) -> (r: bool)
    ensures
        r == spec_field_exists(config@, field_name@),
{
    let stripped = remove_whitespace(config);
    let hay = str_to_chars(stripped.as_str());
    let mut needle = str_to_chars(field_name);
    needle.push('=');
    proof {
        assert(needle@ =~= field_marker(field_name@));
    }
    contains_chars(&hay, &needle)
}

/// The aliases among `field_names` that occur as fields in the config
/// text, each paired with the supported `replacement` to suggest.
pub fn correct(config: &str, replacement: &str, field_names: Vec<&str>) -> (r: Vec<
    CorrectionWarning,
>)
    ensures
        r@.map_values(|w: CorrectionWarning| w.field@) == offending(
            field_names@.map_values(|f: &str| f@),
            config@,
        ),
        forall|i: int| 0 <= i < r@.len() ==> r@[i].replacement@ == replacement@,
{
    let mut r: Vec<CorrectionWarning> = Vec::new();
    let mut i: usize = 0;
    let ghost all = field_names@.map_values(|f: &str| f@);
    while i < field_names.len()
        invariant
            i <= field_names@.len(),
            all == field_names@.map_values(|f: &str| f@),
            r@.map_values(|w: CorrectionWarning| w.field@) == offending(
                all.take(i as int),
                config@,
            ),
            forall|k: int| 0 <= k < r@.len() ==> r@[k].replacement@ == replacement@,
        decreases field_names@.len() - i,
    {
        let f = field_names[i];
        proof {
            assert(all.take(i + 1).drop_last() =~= all.take(i as int));
            assert(all.take(i + 1).last() == f@);
        }
        if field_exists(config, f) {
            r.push(
                CorrectionWarning {
                    field: String::from_str(f),
                    replacement: String::from_str(replacement),
                },
            );
        }
        proof {
            reveal_with_fuel(Seq::<_>::filter, 2);
            assert(r@.map_values(|w: CorrectionWarning| w.field@) =~= offending(
                all.take(i + 1),
                config@,
            ));
        }
        i += 1;
    }
    proof {
        assert(all.take(all.len() as int) =~= all);
    }
    r
}

/// Check a config text for every unsupported alias field and return one
/// warning for each that occurs: aliases of `uses` first, then aliases of
/// `run`, each with the supported field to suggest.
pub fn run(config: &str) -> (r: Vec<CorrectionWarning>)
    ensures
        r@.map_values(|w: CorrectionWarning| w.field@) == offending(uses_aliases(), config@)
            + offending(run_aliases(), config@),
        forall|i: int|
            0 <= i < r@.len() ==> r@[i].replacement@ == (if i < offending(
                uses_aliases(),
                config@,
            ).len() {
                "uses"@
            } else {
                "run"@
            }),
{
    let uses_names = vec!["use", "needs", "dependencies", "before", "depends"];
    let run_names = vec!["command", "cmd", "script"];
    proof {
        assert(uses_names@.map_values(|f: &str| f@) =~= uses_aliases());
        assert(run_names@.map_values(|f: &str| f@) =~= run_aliases());
    }
    let mut r = correct(config, "uses", uses_names);
    let ghost first = r@;
    let mut more = correct(config, "run", run_names);
    let ghost second = more@;
    r.append(&mut more);
    proof {
        assert(r@.map_values(|w: CorrectionWarning| w.field@) =~= first.map_values(
            |w: CorrectionWarning| w.field@,
        ) + second.map_values(|w: CorrectionWarning| w.field@));
    }
    r
}

} // verus!
