use vstd::prelude::*;
use vstd::string::*;

use super::toml_value::{auto_quote_toml_value, toml_value_for};
use crate::text::{
    split_once, split_once_char, str_eq, strip_prefix, strip_prefix_str, trim_start_char,
    trim_start_matches_char,
};

verus! {

/// The characters of each string.
pub open spec fn texts(v: Seq<String>) -> Seq<Seq<char>> {
    v.map_values(|s: String| s@)
}

/// The characters of each pair of strings.
pub open spec fn text_pairs(v: Seq<(String, String)>) -> Seq<(Seq<char>, Seq<char>)> {
    v.map_values(|p: (String, String)| (p.0@, p.1@))
}

/// What a command-line override argument gives: for `section.key=value`
/// (after any leading dashes), the section and the TOML line
/// `key = <value>`.
pub open spec fn override_of(arg: Seq<char>) -> Option<(Seq<char>, Seq<char>)> {
    match split_once(trim_start_char(arg, '-'), '=') {
        Some((path, value)) => match split_once(path, '.') {
            Some((section, key)) => Some((section, key + " = "@ + toml_value_for(value))),
            None => None,
        },
        None => None,
    }
}

/// An argument with `=` but no section before it: it is ignored, with a
/// warning.
pub open spec fn is_malformed_override(arg: Seq<char>) -> bool {
    match split_once(trim_start_char(arg, '-'), '=') {
        Some((path, value)) => split_once(path, '.') is None,
        None => false,
    }
}

/// The overrides of `args`, in order.
pub open spec fn override_entries(args: Seq<Seq<char>>) -> Seq<(Seq<char>, Seq<char>)>
    decreases args.len(),
{
    if args.len() == 0 {
        Seq::empty()
    } else {
        override_entries(args.drop_last()) + match override_of(args.last()) {
            Some(e) => seq![e],
            None => Seq::empty(),
        }
    }
}

/// The malformed arguments of `args` (without their leading dashes), in order.
pub open spec fn malformed_overrides(args: Seq<Seq<char>>) -> Seq<Seq<char>>
    decreases args.len(),
{
    if args.len() == 0 {
        Seq::empty()
    } else {
        malformed_overrides(args.drop_last()) + if is_malformed_override(args.last()) {
            seq![trim_start_char(args.last(), '-')]
        } else {
            Seq::empty()
        }
    }
}

/// The sections that `entries` name, each once, in order of first mention.
pub open spec fn sections_of(entries: Seq<(Seq<char>, Seq<char>)>) -> Seq<Seq<char>>
    decreases entries.len(),
{
    if entries.len() == 0 {
        Seq::empty()
    } else {
        let d = sections_of(entries.drop_last());
        if d.contains(entries.last().0) {
            d
        } else {
            d.push(entries.last().0)
        }
    }
}

/// The lines of the entries for `section`, each ended by a newline.
pub open spec fn lines_of(entries: Seq<(Seq<char>, Seq<char>)>, section: Seq<char>) -> Seq<char>
    decreases entries.len(),
{
    if entries.len() == 0 {
        Seq::empty()
    } else {
        lines_of(entries.drop_last(), section) + if entries.last().0 == section {
            entries.last().1 + "\n"@
        } else {
            Seq::empty()
        }
    }
}

/// A TOML table for each of `sections`, holding its lines.
pub open spec fn toml_tables(entries: Seq<(Seq<char>, Seq<char>)>, sections: Seq<Seq<char>>) -> Seq<char>
    decreases sections.len(),
{
    if sections.len() == 0 {
        Seq::empty()
    } else {
        toml_tables(entries, sections.drop_last()) + "["@ + sections.last() + "]\n"@ + lines_of(
            entries,
            sections.last(),
        )
    }
}

/// The TOML text of the overrides of `args`, if there are any.
pub open spec fn overrides_toml(args: Seq<Seq<char>>) -> Option<Seq<char>> {
    let entries = override_entries(args);
    if entries.len() == 0 {
        None
    } else {
        Some(toml_tables(entries, sections_of(entries)))
    }
}

/// The overrides found among the command-line arguments.
pub struct Overrides {
    /// The TOML text that sets them, if there are any.
    pub toml: Option<String>,
    /// The arguments ignored for naming no section (without leading dashes).
    pub ignored: Vec<String>,
}

/// The override an argument gives, if any: its section and TOML line.
fn parse_override(arg: &str) -> (r: Option<(String, String)>)
    ensures
        match r {
            Some(p) => override_of(arg@) == Some((p.0@, p.1@)),
            None => override_of(arg@) is None,
        },
{
    let a = trim_start_matches_char(arg, '-');
    match split_once_char(a, '=') {
        Some((path, value)) => match split_once_char(path, '.') {
            Some((section, key)) => {
                let mut line = String::from_str(key);
                line.append(" = ");
                let v = auto_quote_toml_value(value);
                line.append(v.as_str());
                proof {
                    reveal_strlit(" = ");
                }
                Some((String::from_str(section), line))
            },
            None => None,
        },
        None => None,
    }
}

/// Whether `arg` is malformed, and the argument without its leading dashes.
fn malformed(arg: &str) -> (r: Option<String>)
    ensures
        match r {
            Some(s) => is_malformed_override(arg@) && s@ == trim_start_char(arg@, '-'),
            None => !is_malformed_override(arg@),
        },
{
    let a = trim_start_matches_char(arg, '-');
    match split_once_char(a, '=') {
        Some((path, value)) => match split_once_char(path, '.') {
            Some(_) => None,
            None => Some(String::from_str(a)),
        },
        None => None,
    }
}

/// Whether `v` holds `s`.
fn contains_text(v: &Vec<String>, s: &String) -> (b: bool)
    ensures
        b == texts(v@).contains(s@),
{
    let mut i: usize = 0;
    while i < v.len()
        invariant
            0 <= i <= v@.len(),
            forall|j: int| 0 <= j < i ==> v@[j]@ != s@,
        decreases v@.len() - i,
    {
        if str_eq(v[i].as_str(), s.as_str()) {
            proof {
                assert(texts(v@)[i as int] == s@);
            }
            return true;
        }
        i = i + 1;
    }
    proof {
        if texts(v@).contains(s@) {
            let j = choose|j: int| 0 <= j < texts(v@).len() && texts(v@)[j] == s@;
            assert(v@[j]@ == s@);
        }
    }
    false
}

/// Gathers the overrides in `args`: each argument `section.key=value` (with
/// any number of leading dashes) sets `key` in table `section`, its value
/// quoted as `auto_quote_toml_value` does. Tables come in order of first
/// mention, each with its lines in order. Arguments with `=` but no section
/// are ignored and listed; others without `=` are skipped.
pub fn get_overrides(args: &Vec<String>) -> (r: Overrides)
    ensures
        match r.toml {
            Some(t) => overrides_toml(texts(args@)) == Some(t@),
            None => overrides_toml(texts(args@)) is None,
        },
        texts(r.ignored@) == malformed_overrides(texts(args@)),
{
    let ghost a = texts(args@);
    let mut entries: Vec<(String, String)> = Vec::new();
    let mut ignored: Vec<String> = Vec::new();
    let mut k: usize = 0;
    while k < args.len()
        invariant
            a == texts(args@),
            0 <= k <= args@.len(),
            text_pairs(entries@) == override_entries(a.subrange(0, k as int)),
            texts(ignored@) == malformed_overrides(a.subrange(0, k as int)),
        decreases args@.len() - k,
    {
        proof {
            assert(a.subrange(0, k + 1).drop_last() =~= a.subrange(0, k as int));
            assert(a.subrange(0, k + 1).last() == args@[k as int]@);
        }
        match parse_override(args[k].as_str()) {
            Some(p) => {
                entries.push(p);
            },
            None => {},
        }
        match malformed(args[k].as_str()) {
            Some(s) => {
                ignored.push(s);
            },
            None => {},
        }
        proof {
            assert(text_pairs(entries@) =~= override_entries(a.subrange(0, k + 1)));
            assert(texts(ignored@) =~= malformed_overrides(a.subrange(0, k + 1)));
        }
        k = k + 1;
    }
    proof {
        assert(a.subrange(0, k as int) =~= a);
    }
    let ghost es = text_pairs(entries@);
    if entries.len() == 0 {
        return Overrides { toml: None, ignored };
    }
    let mut sections: Vec<String> = Vec::new();
    let mut j: usize = 0;
    while j < entries.len()
        invariant
            es == text_pairs(entries@),
            0 <= j <= entries@.len(),
            texts(sections@) == sections_of(es.subrange(0, j as int)),
        decreases entries@.len() - j,
    {
        proof {
            assert(es.subrange(0, j + 1).drop_last() =~= es.subrange(0, j as int));
            assert(es.subrange(0, j + 1).last() == es[j as int]);
        }
        if !contains_text(&sections, &entries[j].0) {
            let s = entries[j].0.clone();
            sections.push(s);
        }
        proof {
            assert(texts(sections@) =~= sections_of(es.subrange(0, j + 1)));
        }
        j = j + 1;
    }
    proof {
        assert(es.subrange(0, j as int) =~= es);
    }
    let ghost secs = texts(sections@);
    let mut out = String::new();
    let mut t: usize = 0;
    while t < sections.len()
        invariant
            es == text_pairs(entries@),
            secs == texts(sections@),
            0 <= t <= sections@.len(),
            out@ == toml_tables(es, secs.subrange(0, t as int)),
        decreases sections@.len() - t,
    {
        out.append("[");
        out.append(sections[t].as_str());
        out.append("]\n");
        let mut q: usize = 0;
        let ghost head = out@;
        while q < entries.len()
            invariant
                es == text_pairs(entries@),
                secs == texts(sections@),
                0 <= t < sections@.len(),
                0 <= q <= entries@.len(),
                out@ == head + lines_of(es.subrange(0, q as int), secs[t as int]),
            decreases entries@.len() - q,
        {
            proof {
                assert(es.subrange(0, q + 1).drop_last() =~= es.subrange(0, q as int));
                assert(es.subrange(0, q + 1).last() == es[q as int]);
            }
            if str_eq(entries[q].0.as_str(), sections[t].as_str()) {
                out.append(entries[q].1.as_str());
                out.append("\n");
            }
            proof {
                reveal_strlit("\n");
                assert(out@ =~= head + lines_of(es.subrange(0, q + 1), secs[t as int]));
            }
            q = q + 1;
        }
        proof {
            reveal_strlit("[");
            reveal_strlit("]\n");
            assert(es.subrange(0, q as int) =~= es);
            assert(secs.subrange(0, t + 1).drop_last() =~= secs.subrange(0, t as int));
            assert(secs.subrange(0, t + 1).last() == secs[t as int]);
            assert(out@ =~= toml_tables(es, secs.subrange(0, t + 1)));
        }
        t = t + 1;
    }
    proof {
        assert(secs.subrange(0, t as int) =~= secs);
    }
    Overrides { toml: Some(out), ignored }
}

/// The index of the first argument that, after its leading dashes, starts
/// with `config=`.
pub open spec fn config_arg_index(args: Seq<Seq<char>>) -> Option<int>
    decreases args.len(),
{
    if args.len() == 0 {
        None
    } else if strip_prefix(trim_start_char(args[0], '-'), "config="@) is Some {
        Some(0)
    } else {
        match config_arg_index(args.drop_first()) {
            Some(i) => Some(i + 1),
            None => None,
        }
    }
}

proof fn lemma_config_arg_index(args: Seq<Seq<char>>, k: int)
    requires
        0 <= k <= args.len(),
        forall|j: int| 0 <= j < k ==> strip_prefix(trim_start_char(#[trigger] args[j], '-'), "config="@) is None,
    ensures
        k < args.len() && strip_prefix(trim_start_char(args[k], '-'), "config="@) is Some ==> config_arg_index(args) == Some(k),
        k == args.len() ==> config_arg_index(args) is None,
    decreases k,
{
    if args.len() > 0 && k > 0 {
        let t = args.drop_first();
        assert forall|j: int| 0 <= j < k - 1 implies strip_prefix(trim_start_char(#[trigger] t[j], '-'), "config="@) is None by {
            assert(t[j] == args[j + 1]);
        }
        lemma_config_arg_index(t, k - 1);
        if k < args.len() {
            assert(t[k - 1] == args[k]);
        }
    }
}

/// Takes the configuration file path out of the arguments: the first one
/// that reads `config=<path>` after its leading dashes gives the path and is
/// removed; the others stay, in order.
pub fn take_config_path(args: Vec<String>) -> (r: (Option<String>, Vec<String>))
    ensures
        config_arg_index(texts(args@)) matches Some(i) ==> {
            &&& r.0 is Some
            &&& Some(r.0->0@) == strip_prefix(trim_start_char(args@[i]@, '-'), "config="@)
            &&& texts(r.1@) == texts(args@).remove(i)
        },
        config_arg_index(texts(args@)) is None ==> r.0 is None && texts(r.1@) == texts(args@),
{
    let ghost orig = args@;
    let ghost a = texts(orig);
    let mut rest = args;
    let mut i: usize = 0;
    while i < rest.len()
        invariant
            a == texts(rest@),
            a == texts(orig),
            orig == args@,
            0 <= i <= rest@.len(),
            forall|j: int| 0 <= j < i ==> strip_prefix(trim_start_char(#[trigger] a[j], '-'), "config="@) is None,
        decreases rest@.len() - i,
    {
        let arg = trim_start_matches_char(rest[i].as_str(), '-');
        proof {
            reveal_strlit("config=");
            assert(a[i as int] == rest@[i as int]@);
        }
        match strip_prefix_str(arg, "config=") {
            Some(path) => {
                let p = String::from_str(path);
                proof {
                    lemma_config_arg_index(a, i as int);
                    assert(a[i as int] == orig[i as int]@);
                }
                rest.remove(i);
                proof {
                    assert(texts(rest@) =~= a.remove(i as int));
                }
                return (Some(p), rest);
            },
            None => {},
        }
        i = i + 1;
    }
    proof {
        lemma_config_arg_index(a, i as int);
    }
    (None, rest)
}

} // verus!
