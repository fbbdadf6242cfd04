use vstd::prelude::*;
use vstd::string::*;

verus! {

/// `s` with each backslash doubled.
pub open spec fn double_backslashes(s: Seq<char>) -> Seq<char>
    decreases s.len(),
{
    if s.len() == 0 {
        Seq::empty()
    } else {
        double_backslashes(s.drop_last()) + if s.last() == '\\' {
            seq!['\\', '\\']
        } else {
            seq![s.last()]
        }
    }
}

/// The TOML text of a test configuration whose only setting is the database
/// path `db_path`, its backslashes escaped.
pub fn build_config(db_path: &str) -> (t: String)
    ensures
        t@ == "[general]\ndb_path = \""@ + double_backslashes(db_path@) + "\"\n"@,
{
    let n = db_path.unicode_len();
    let mut out = String::from_str("[general]\ndb_path = \"");
    let ghost head = out@;
    proof {
        assert(db_path@.subrange(0, 0) =~= Seq::<char>::empty());
        assert(out@ =~= head + double_backslashes(db_path@.subrange(0, 0)));
    }
    let mut start: usize = 0;
    let mut i: usize = 0;
    while i < n
        invariant
            n == db_path@.len(),
            0 <= start <= i <= n,
            out@ == head + double_backslashes(db_path@.subrange(0, start as int)),
            forall|j: int| start <= j < i ==> #[trigger] db_path@[j] != '\\',
        decreases n - i,
    {
        let c = db_path.get_char(i);
        if c == '\\' {
            let plain = db_path.substring_char(start, i);
            out.append(plain);
            out.append("\\\\");
            proof {
                reveal_strlit("\\\\");
                lemma_double_backslashes_extend(db_path@, start as int, i as int);
                assert(db_path@.subrange(0, i + 1).drop_last() =~= db_path@.subrange(0, i as int));
                assert(out@ =~= head + double_backslashes(db_path@.subrange(0, i + 1)));
            }
            start = i + 1;
        }
        i = i + 1;
    }
    let rest = db_path.substring_char(start, n);
    out.append(rest);
    out.append("\"\n");
    proof {
        reveal_strlit("\"\n");
        lemma_double_backslashes_extend(db_path@, start as int, n as int);
        assert(db_path@.subrange(0, n as int) =~= db_path@);
        assert(db_path@.subrange(start as int, n as int) =~= rest@);
    }
    out
}

/// Doubling the backslashes of a prefix whose tail from `start` has none.
proof fn lemma_double_backslashes_extend(s: Seq<char>, start: int, i: int)
    requires
        0 <= start <= i <= s.len(),
        forall|j: int| start <= j < i ==> #[trigger] s[j] != '\\',
    ensures
        double_backslashes(s.subrange(0, i)) == double_backslashes(s.subrange(0, start)) + s.subrange(start, i),
    decreases i - start,
{
    if i > start {
        lemma_double_backslashes_extend(s, start, i - 1);
        assert(s.subrange(0, i).drop_last() =~= s.subrange(0, i - 1));
        assert(s.subrange(start, i) =~= s.subrange(start, i - 1).push(s[i - 1]));
    } else {
        assert(s.subrange(start, i) =~= Seq::<char>::empty());
    }
}

} // verus!
