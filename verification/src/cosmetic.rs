//! Per-site cosmetic filtering: scriptlet selection by host, and the CSS that
//! hides ad elements.
use vstd::prelude::*;

use crate::engine::UserScript;
use crate::text::{chars_of, same_text};

verus! {

/// One scriptlet of the manifest.
#[derive(Debug, Clone)]
pub struct ScriptletEntry {
    pub name: String,
    /// Host suffixes it applies to (e.g. `youtube.com`); `*` applies everywhere.
    pub hosts: Vec<String>,
    /// JavaScript injected at document start in the page world.
    pub source: String,
    /// Alternative to `source`: a `.js` file next to the manifest.
    pub file: Option<String>,
    pub main_frame_only: bool,
}

/// The scriptlet manifest.
#[derive(Debug, Clone, Default)]
pub struct ScriptletManifest {
    pub scriptlets: Vec<ScriptletEntry>,
}

/// `host` equals `pattern`, is a subdomain of it, or `pattern` is `*`.
pub open spec fn host_matches(host: Seq<char>, pattern: Seq<char>) -> bool {
    ||| pattern == "*"@
    ||| host == pattern
    ||| (host.len() > pattern.len() && host.skip(host.len() - pattern.len()) == pattern && host[host.len()
        - pattern.len() - 1] == '.')
}

/// Some pattern of `hosts` matches `host`.
pub open spec fn entry_applies(hosts: Seq<String>, host: Seq<char>) -> bool {
    exists|k: int| 0 <= k < hosts.len() && host_matches(host, #[trigger] hosts[k]@)
}

/// The scriptlets of `es` that apply to `host`, in manifest order.
pub open spec fn applicable(es: Seq<ScriptletEntry>, host: Seq<char>) -> Seq<ScriptletEntry>
    decreases es.len(),
{
    if es.len() == 0 {
        es
    } else if entry_applies(es.last().hosts@, host) {
        applicable(es.drop_last(), host).push(es.last())
    } else {
        applicable(es.drop_last(), host)
    }
}

/// Whether `host` ends with `.` followed by `pattern`.
fn dotted_suffix(host: &Vec<char>, pattern: &Vec<char>) -> (r: bool)
    ensures
        r == (host@.len() > pattern@.len() && host@.skip(host@.len() - pattern@.len()) == pattern@
            && host@[host@.len() - pattern@.len() - 1] == '.'),
{
    if host.len() <= pattern.len() {
        return false;
    }
    let n = host.len();
    let off = n - pattern.len();
    for i in 0..pattern.len()
        invariant
            n == host@.len(),
            off == host@.len() - pattern@.len(),
            off >= 1,
            forall|j: int| 0 <= j < i ==> host@[off + j] == pattern@[j],
    {
        if host[off + i] != pattern[i] {
            proof {
                assert(host@.skip(off as int)[i as int] != pattern@[i as int]);
            }
            return false;
        }
    }
    proof {
        assert(host@.skip(off as int) =~= pattern@);
    }
    host[off - 1] == '.'
}

/// Whether the scriptlet pattern `pattern` applies to `host`.
pub fn host_matches_exec(host: &str, pattern: &str) -> (r: bool)
    ensures
        r == host_matches(host@, pattern@),
{
    if same_text(pattern, "*") || same_text(host, pattern) {
        return true;
    }
    dotted_suffix(&chars_of(host), &chars_of(pattern))
}

impl ScriptletManifest {
    /// The scriptlets applicable to `host` (suffix match on domain labels),
    /// as user scripts, in manifest order.
    pub fn for_host(&self, host: &str) -> (r: Vec<UserScript>)
        ensures
            r@.len() == applicable(self.scriptlets@, host@).len(),
            forall|i: int| 0 <= i < r@.len() ==> {
                let e = applicable(self.scriptlets@, host@)[i];
                &&& (#[trigger] r@[i]).name == e.name
                &&& r@[i].source == e.source
                &&& r@[i].main_frame_only == e.main_frame_only
            },
    {
        let mut out: Vec<UserScript> = Vec::new();
        for i in 0..self.scriptlets.len()
            invariant
                out@.len() == applicable(self.scriptlets@.take(i as int), host@).len(),
                forall|x: int| 0 <= x < out@.len() ==> {
                    let e = applicable(self.scriptlets@.take(i as int), host@)[x];
                    &&& (#[trigger] out@[x]).name == e.name
                    &&& out@[x].source == e.source
                    &&& out@[x].main_frame_only == e.main_frame_only
                },
        {
            let e = &self.scriptlets[i];
            proof {
                assert(self.scriptlets@.take(i + 1).drop_last() =~= self.scriptlets@.take(i as int));
                assert(self.scriptlets@.take(i + 1).last() == *e);
            }
            let mut applies = false;
            for k in 0..e.hosts.len()
                invariant
                    !applies ==> forall|y: int| 0 <= y < k ==> !host_matches(host@, #[trigger] e.hosts@[y]@),
                    applies ==> entry_applies(e.hosts@, host@),
            {
                if host_matches_exec(host, e.hosts[k].as_str()) {
                    applies = true;
                }
            }
            if applies {
                out.push(UserScript { name: e.name.clone(), source: e.source.clone(), main_frame_only: e.main_frame_only });
            }
        }
        proof {
            assert(self.scriptlets@.take(self.scriptlets@.len() as int) =~= self.scriptlets@);
        }
        out
    }
}

/// Selectors per generated CSS rule block.
pub const SELECTORS_PER_BLOCK: usize = 1000;

/// `sels` joined by `,`.
pub open spec fn joined(sels: Seq<String>) -> Seq<char>
    decreases sels.len(),
{
    if sels.len() == 0 {
        Seq::empty()
    } else if sels.len() == 1 {
        sels[0]@
    } else {
        joined(sels.drop_last()) + ","@ + sels.last()@
    }
}

/// The CSS hiding `sels`: blocks of at most `SELECTORS_PER_BLOCK` selectors,
/// each `a,b,...{display:none !important;}` and a newline.
pub open spec fn hiding_css(sels: Seq<String>) -> Seq<char>
    decreases sels.len(),
{
    if sels.len() == 0 {
        Seq::empty()
    } else if sels.len() <= SELECTORS_PER_BLOCK {
        joined(sels) + "{display:none !important;}\n"@
    } else {
        joined(sels.take(SELECTORS_PER_BLOCK as int)) + "{display:none !important;}\n"@ + hiding_css(
            sels.skip(SELECTORS_PER_BLOCK as int),
        )
    }
}

fn join_range(sels: &Vec<String>, a: usize, b: usize, out: &mut String)
    requires
        a < b <= sels@.len(),
    ensures
        final(out)@ == old(out)@ + joined(sels@.subrange(a as int, b as int)),
{
    out.push_str(sels[a].as_str());
    proof {
        assert(sels@.subrange(a as int, a + 1).len() == 1);
        assert(joined(sels@.subrange(a as int, a + 1)) == sels@[a as int]@);
    }
    let mut i = a + 1;
    while i < b
        invariant
            a < i <= b <= sels@.len(),
            out@ == old(out)@ + joined(sels@.subrange(a as int, i as int)),
        decreases b - i,
    {
        let ghost before = out@;
        out.push_str(",");
        out.push_str(sels[i].as_str());
        proof {
            let s2 = sels@.subrange(a as int, i + 1);
            assert(s2.drop_last() =~= sels@.subrange(a as int, i as int));
            assert(s2.last() == sels@[i as int]);
            assert(out@ =~= old(out)@ + joined(s2));
        }
        i = i + 1;
    }
}

/// The CSS that hides `selectors`, in blocks.
pub fn css_for_selectors(selectors: &Vec<String>) -> (r: String)
    ensures
        r@ == hiding_css(selectors@),
{
    let mut css = String::new();
    let mut start: usize = 0;
    proof {
        assert(selectors@.skip(0) =~= selectors@);
    }
    while start < selectors.len()
        invariant
            start <= selectors@.len(),
            hiding_css(selectors@) == css@ + hiding_css(selectors@.skip(start as int)),
        decreases selectors@.len() - start,
    {
        let rest = selectors.len() - start;
        let end = if rest > SELECTORS_PER_BLOCK { start + SELECTORS_PER_BLOCK } else { selectors.len() };
        let ghost before = css@;
        join_range(selectors, start, end, &mut css);
        css.push_str("{display:none !important;}\n");
        proof {
            let tail = selectors@.skip(start as int);
            if rest > SELECTORS_PER_BLOCK {
                assert(tail.take(SELECTORS_PER_BLOCK as int) =~= selectors@.subrange(start as int, end as int));
                assert(tail.skip(SELECTORS_PER_BLOCK as int) =~= selectors@.skip(end as int));
            } else {
                assert(tail =~= selectors@.subrange(start as int, end as int));
                assert(selectors@.skip(end as int) =~= Seq::<String>::empty());
            }
            assert(css@ + hiding_css(selectors@.skip(end as int)) =~= before + hiding_css(tail));
        }
        start = end;
    }
    proof {
        assert(selectors@.skip(start as int) =~= Seq::<String>::empty());
        assert(css@ + Seq::<char>::empty() =~= css@);
    }
    css
}

} // verus!
