//! Start-up decisions of the server: which profile files to load, in which
//! order profiles are tried, and the device description it serves.

use vstd::prelude::*;

use crate::renderer::RendererConfiguration;
use crate::text::{replace_all, replace_str, str_eq};
use crate::watcher::{extension_of, file_extension};

verus! {

/// The file holds a renderer profile: its extension is exactly `conf`.
pub open spec fn is_profile_file(name: Seq<char>) -> bool {
    file_extension(name) == Some("conf"@)
}

/// Tests whether the file `name` holds a renderer profile.
pub fn is_renderer_config_file(name: &str) -> (r: bool)
    ensures
        r == is_profile_file(name@),
{
    match extension_of(name) {
        Some(e) => str_eq(e.as_str(), "conf"),
        None => false,
    }
}

/// Tests whether the file `name` holds the default profile.
pub fn is_default_renderer_file(name: &str) -> (r: bool)
    ensures
        r == (name@ == "DefaultRenderer.conf"@),
{
    str_eq(name, "DefaultRenderer.conf")
}

/// The device description served at `/description.xml`: the template with
/// every `{}` replaced by the server's UUID.
pub fn description_xml(template: &str, uuid: &str) -> (r: String)
    ensures
        r@ == replace_all(template@, "{}"@, uuid@),
{
    proof {
        reveal_strlit("{}");
    }
    replace_str(template, "{}", uuid)
}

// ---------------------------------------------------------------------------
// Profile order
// ---------------------------------------------------------------------------

/// Where a profile of priority `p` goes in a list sorted by descending
/// priority: after every profile of priority at least `p`.
pub open spec fn insert_position(s: Seq<RendererConfiguration>, p: i32) -> int
    decreases s.len(),
{
    if s.len() == 0 {
        0
    } else if s[0].loading_priority < p {
        0
    } else {
        1 + insert_position(s.drop_first(), p)
    }
}

/// The profiles sorted by descending loading priority, profiles of equal
/// priority in the order they were given (a stable sort).
pub open spec fn by_priority(s: Seq<RendererConfiguration>) -> Seq<RendererConfiguration>
    decreases s.len(),
{
    if s.len() == 0 {
        s
    } else {
        let t = by_priority(s.drop_last());
        t.insert(insert_position(t, s.last().loading_priority), s.last())
    }
}

/// The profiles are in descending order of priority.
pub open spec fn priority_descending(s: Seq<RendererConfiguration>) -> bool {
    forall|i: int, j: int|
        0 <= i < j < s.len() ==> #[trigger] s[i].loading_priority >= #[trigger] s[j].loading_priority
}

proof fn lemma_insert_position(s: Seq<RendererConfiguration>, p: i32)
    ensures
        0 <= insert_position(s, p) <= s.len(),
        forall|k: int| 0 <= k < insert_position(s, p) ==> #[trigger] s[k].loading_priority >= p,
        priority_descending(s) ==> forall|k: int|
            insert_position(s, p) <= k < s.len() ==> #[trigger] s[k].loading_priority < p,
    decreases s.len(),
{
    if s.len() > 0 && s[0].loading_priority >= p {
        lemma_insert_position(s.drop_first(), p);
        assert forall|k: int| 0 <= k < insert_position(s, p) implies #[trigger] s[k].loading_priority
            >= p by {
            if k > 0 {
                assert(s[k] == s.drop_first()[k - 1]);
            }
        }
        if priority_descending(s) {
            assert(priority_descending(s.drop_first())) by {
                assert forall|i: int, j: int| 0 <= i < j < s.drop_first().len() implies #[trigger] s.drop_first()[i].loading_priority
                    >= #[trigger] s.drop_first()[j].loading_priority by {
                    assert(s.drop_first()[i] == s[i + 1]);
                    assert(s.drop_first()[j] == s[j + 1]);
                }
            }
            assert forall|k: int| insert_position(s, p) <= k < s.len() implies #[trigger] s[k].loading_priority
                < p by {
                assert(s[k] == s.drop_first()[k - 1]);
            }
        }
    } else if s.len() > 0 {
        if priority_descending(s) {
            assert forall|k: int| 0 <= k < s.len() implies #[trigger] s[k].loading_priority < p by {
                if k > 0 {
                    assert(s[0].loading_priority >= s[k].loading_priority);
                }
            }
        }
    }
}

/// Sorting by priority orders the profiles by descending priority and keeps
/// every profile: the result is a permutation of the input.
pub proof fn lemma_by_priority(s: Seq<RendererConfiguration>)
    ensures
        priority_descending(by_priority(s)),
        by_priority(s).to_multiset() == s.to_multiset(),
        by_priority(s).len() == s.len(),
    decreases s.len(),
{
    if s.len() > 0 {
        let t = by_priority(s.drop_last());
        lemma_by_priority(s.drop_last());
        let x = s.last();
        let k = insert_position(t, x.loading_priority);
        lemma_insert_position(t, x.loading_priority);
        let u = t.insert(k, x);
        assert forall|i: int, j: int| 0 <= i < j < u.len() implies #[trigger] u[i].loading_priority
            >= #[trigger] u[j].loading_priority by {
            if j < k {
                assert(u[i] == t[i] && u[j] == t[j]);
            } else if j == k {
                assert(u[i] == t[i]);
            } else if i < k {
                assert(u[i] == t[i] && u[j] == t[j - 1]);
            } else if i == k {
                assert(u[j] == t[j - 1]);
            } else {
                assert(u[i] == t[i - 1] && u[j] == t[j - 1]);
            }
        }
        vstd::seq_lib::to_multiset_insert(t, k, x);
        vstd::seq_lib::to_multiset_build(s.drop_last(), x);
        assert(s.drop_last().push(x) =~= s);
    }
}

/// The position at which a profile of priority `p` goes in `out`.
fn insert_position_exec(out: &Vec<RendererConfiguration>, p: i32) -> (r: usize)
    ensures
        r == insert_position(out@, p),
{
    let mut j: usize = 0;
    assert(out@.skip(0) =~= out@);
    while j < out.len() && out[j].loading_priority >= p
        invariant
            j <= out@.len(),
            insert_position(out@, p) == j + insert_position(out@.skip(j as int), p),
        decreases out.len() - j,
    {
        assert(out@.skip(j as int).drop_first() =~= out@.skip(j + 1));
        j += 1;
    }
    j
}

/// Sorts renderer profiles by descending loading priority; profiles of equal
/// priority keep their order.
pub fn sort_by_priority(renderers: Vec<RendererConfiguration>) -> (r: Vec<RendererConfiguration>)
    ensures
        r@ == by_priority(renderers@),
        priority_descending(r@),
        r@.to_multiset() == renderers@.to_multiset(),
{
    let ghost orig = renderers@;
    assert(orig.len() == renderers.len());
    let mut rest = renderers;
    let mut out: Vec<RendererConfiguration> = Vec::new();
    let mut i: usize = 0;
    assert(orig.take(0) =~= Seq::<RendererConfiguration>::empty());
    assert(orig.skip(0) =~= orig);
    while rest.len() > 0
        invariant
            i <= orig.len(),
            orig.len() <= usize::MAX,
            rest@ == orig.skip(i as int),
            out@ == by_priority(orig.take(i as int)),
        decreases rest.len(),
    {
        let x = rest.remove(0);
        assert(orig.take(i + 1).drop_last() =~= orig.take(i as int));
        assert(orig.take(i + 1).last() == x);
        let k = insert_position_exec(&out, x.loading_priority);
        proof {
            lemma_insert_position(out@, x.loading_priority);
        }
        out.insert(k, x);
        assert(rest@ =~= orig.skip(i + 1));
        i += 1;
    }
    assert(orig.take(i as int) =~= orig);
    proof {
        lemma_by_priority(orig);
    }
    out
}

} // verus!
