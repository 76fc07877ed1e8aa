//! The user store: named port mappings plus an ignore list for defaults.
//!
//! A store is an insertion-ordered list of mappings. Names need not be
//! unique: lookup takes the first match, removal takes every match. The
//! resolver consults the user store first, then the ignore list, then the
//! defaults store, so an explicit user entry always wins and an ignored name
//! never falls back to a default.

use vstd::prelude::*;

use crate::defaults::DefaultsConfig;
use crate::port_spec::PortSpec;

verus! {

/// A named association between a service identifier and a port value.
pub struct PortMapping {
    pub name: String,
    pub port: PortSpec,
    pub description: Option<String>,
}

/// The mathematical content of a mapping: its strings as character sequences.
pub struct MappingView {
    pub name: Seq<char>,
    pub port: PortSpec,
    pub description: Option<Seq<char>>,
}

impl View for PortMapping {
    type V = MappingView;

    open spec fn view(&self) -> MappingView {
        MappingView {
            name: self.name@,
            port: self.port,
            description: match self.description {
                Some(d) => Some(d@),
                None => None,
            },
        }
    }
}

impl Clone for PortMapping {
    fn clone(&self) -> (r: Self)
        ensures
            r == *self,
    {
        PortMapping {
            name: self.name.clone(),
            port: self.port,
            description: match &self.description {
                Some(d) => Some(d.clone()),
                None => None,
            },
        }
    }
}

/// The user store: explicit mappings and the names whose defaults are
/// suppressed.
pub struct Config {
    pub ports: Vec<PortMapping>,
    pub ignored_defaults: Vec<String>,
}

impl Default for Config {
    /// An empty store: no mappings, no ignored names.
    fn default() -> (c: Config)
        ensures
            c.ports@.len() == 0,
            c.ignored_defaults@.len() == 0,
    {
        Config { ports: Vec::new(), ignored_defaults: Vec::new() }
    }
}

/// The first mapping of `s` named `name`, in insertion order.
pub open spec fn spec_find(s: Seq<PortMapping>, name: Seq<char>) -> Option<PortMapping>
    decreases s.len(),
{
    if s.len() == 0 {
        None
    } else if s[0]@.name == name {
        Some(s[0])
    } else {
        spec_find(s.drop_first(), name)
    }
}

/// Whether some string of `s` reads `name`.
pub open spec fn contains_name(s: Seq<String>, name: Seq<char>) -> bool {
    exists|i: int| 0 <= i < s.len() && s[i]@ == name
}

/// Whether some mapping of `s` is named `name`.
pub open spec fn has_mapping(s: Seq<PortMapping>, name: Seq<char>) -> bool {
    exists|i: int| 0 <= i < s.len() && s[i]@.name == name
}

/// `s` without every mapping named `name`, order otherwise kept.
pub open spec fn remove_named(s: Seq<PortMapping>, name: Seq<char>) -> Seq<PortMapping>
    decreases s.len(),
{
    if s.len() == 0 {
        Seq::empty()
    } else if s[0]@.name == name {
        remove_named(s.drop_first(), name)
    } else {
        seq![s[0]] + remove_named(s.drop_first(), name)
    }
}

/// The three-tier resolution rule: the user store wins, an ignored name
/// suppresses the defaults, and the defaults answer only otherwise.
pub open spec fn spec_resolve(
    cfg: Config,
    defaults: DefaultsConfig,
    name: Seq<char>,
) -> Option<PortMapping> {
    match spec_find(cfg.ports@, name) {
        Some(m) => Some(m),
        None => if contains_name(cfg.ignored_defaults@, name) {
            None
        } else {
            spec_find(defaults.ports@, name)
        },
    }
}

/// Whether the spec claims the port `p` (a range claims every port it
/// contains; a backwards range claims nothing).
pub open spec fn port_spec_covers(v: PortSpec, p: u16) -> bool {
    match v {
        PortSpec::Single(q) => p == q,
        PortSpec::Range { start, end } => start <= p <= end,
    }
}

/// Whether the mapping claims the port `p`.
pub open spec fn mapping_covers(m: PortMapping, p: u16) -> bool {
    port_spec_covers(m.port, p)
}

/// Whether some mapping of `s` claims the port `p`.
pub open spec fn covers(s: Seq<PortMapping>, p: u16) -> bool {
    exists|i: int| 0 <= i < s.len() && mapping_covers(#[trigger] s[i], p)
}

/// A name found in the user store resolves to that entry, whatever the
/// defaults store holds for the same name.
pub proof fn lemma_user_store_wins(cfg: Config, defaults: DefaultsConfig, name: Seq<char>)
    requires
        spec_find(cfg.ports@, name) is Some,
    ensures
        spec_resolve(cfg, defaults, name) == spec_find(cfg.ports@, name),
{
}

/// An ignored name that the user store does not hold resolves to nothing,
/// even when the defaults store holds it.
pub proof fn lemma_ignored_name_resolves_to_nothing(
    cfg: Config,
    defaults: DefaultsConfig,
    name: Seq<char>,
)
    requires
        spec_find(cfg.ports@, name) is None,
        contains_name(cfg.ignored_defaults@, name),
    ensures
        spec_resolve(cfg, defaults, name) is None,
{
}

/// Character-by-character string equality.
fn str_eq(a: &str, b: &str) -> (r: bool)
    ensures
        r == (a@ == b@),
{
    let n = a.unicode_len();
    let m = b.unicode_len();
    if n != m {
        return false;
    }
    let mut i: usize = 0;
    while i < n
        invariant
            n == a@.len(),
            n == b@.len(),
            i <= n,
            forall|j: int| 0 <= j < i ==> a@[j] == b@[j],
        decreases n - i,
    {
        if a.get_char(i) != b.get_char(i) {
            return false;
        }
        i += 1;
    }
    proof {
        assert(a@ =~= b@);
    }
    true
}

fn vec_contains_u16(v: &Vec<u16>, x: u16) -> (r: bool)
    ensures
        r == v@.contains(x),
{
    let mut i: usize = 0;
    while i < v.len()
        invariant
            i <= v@.len(),
            forall|j: int| 0 <= j < i ==> v@[j] != x,
        decreases v@.len() - i,
    {
        if v[i] == x {
            return true;
        }
        i += 1;
    }
    false
}

/// Extending the scanned prefix by one mapping extends what it covers by
/// exactly that mapping's ports.
proof fn lemma_covers_extend(s: Seq<PortMapping>, k: int, p: u16)
    requires
        0 <= k < s.len(),
    ensures
        covers(s.subrange(0, k + 1), p) <==> covers(s.subrange(0, k), p) || mapping_covers(
            s[k],
            p,
        ),
{
    let a = s.subrange(0, k);
    let b = s.subrange(0, k + 1);
    assert(forall|j: int| 0 <= j < k ==> a[j] == s[j] && #[trigger] b[j] == s[j]);
    assert(b[k] == s[k]);
    if covers(b, p) {
        let j = choose|j: int| 0 <= j < b.len() && mapping_covers(#[trigger] b[j], p);
        if j < k {
            assert(mapping_covers(a[j], p));
        }
    }
    if covers(a, p) {
        let j = choose|j: int| 0 <= j < a.len() && mapping_covers(#[trigger] a[j], p);
        assert(mapping_covers(b[j], p));
    }
    if mapping_covers(s[k], p) {
        assert(mapping_covers(b[k], p));
    }
}

proof fn lemma_push_contains<T>(s: Seq<T>, x: T, y: T)
    ensures
        s.push(x).contains(y) <==> s.contains(y) || y == x,
{
    if s.push(x).contains(y) {
        let i = choose|i: int| 0 <= i < s.push(x).len() && s.push(x)[i] == y;
        if i < s.len() {
            assert(s[i] == y);
        }
    }
    if s.contains(y) {
        let i = choose|i: int| 0 <= i < s.len() && s[i] == y;
        assert(s.push(x)[i] == y);
    }
    assert(s.push(x)[s.len() as int] == x);
}

proof fn lemma_push_no_duplicates<T>(s: Seq<T>, x: T)
    requires
        s.no_duplicates(),
        !s.contains(x),
    ensures
        s.push(x).no_duplicates(),
{
    let t = s.push(x);
    assert forall|i: int, j: int| 0 <= i < t.len() && 0 <= j < t.len() && i != j implies t[i]
        != t[j] by {
        if i < s.len() && j < s.len() {
            assert(t[i] == s[i] && t[j] == s[j]);
        } else if i < s.len() {
            assert(t[i] == s[i] && t[j] == x);
            if s[i] == x {
                assert(s.contains(x));
            }
        } else {
            assert(t[i] == x && t[j] == s[j]);
            if s[j] == x {
                assert(s.contains(x));
            }
        }
    }
}

/// Adds `q` to `out` unless it is already there.
fn push_port(out: &mut Vec<u16>, q: u16)
    requires
        old(out)@.no_duplicates(),
    ensures
        final(out)@.no_duplicates(),
        forall|p: u16| final(out)@.contains(p) <==> old(out)@.contains(p) || p == q,
{
    if !vec_contains_u16(out, q) {
        let ghost prev = out@;
        out.push(q);
        proof {
            lemma_push_no_duplicates(prev, q);
            assert forall|p: u16| out@.contains(p) <==> prev.contains(p) || p == q by {
                lemma_push_contains(prev, q, p);
            }
        }
    }
}

/// Adds every port that `v` claims to `out`, skipping ports already there.
fn add_spec_ports(out: &mut Vec<u16>, v: PortSpec)
    requires
        old(out)@.no_duplicates(),
    ensures
        final(out)@.no_duplicates(),
        forall|p: u16|
            final(out)@.contains(p) <==> old(out)@.contains(p) || port_spec_covers(v, p),
{
    match v {
        PortSpec::Single(q) => {
            push_port(out, q);
        },
        PortSpec::Range { start, end } => {
            let s = start;
            let e = end;
            if s <= e {
                let mut q = s;
                loop
                    invariant_except_break
                        s <= q <= e,
                        v == (PortSpec::Range { start: s, end: e }),
                        out@.no_duplicates(),
                        forall|p: u16|
                            out@.contains(p) <==> old(out)@.contains(p) || (s <= p < q),
                    ensures
                        v == (PortSpec::Range { start: s, end: e }),
                        out@.no_duplicates(),
                        forall|p: u16|
                            out@.contains(p) <==> old(out)@.contains(p) || (s <= p <= e),
                    decreases e - q,
                {
                    push_port(out, q);
                    if q == e {
                        break ;
                    }
                    q += 1;
                }
            }
        },
    }
}

impl Config {
    /// Appends a mapping to the user store; duplicate names are allowed.
    pub fn add_port(&mut self, name: String, port: PortSpec, description: Option<String>)
        ensures
            final(self).ports@ == old(self).ports@.push(
                (PortMapping { name, port, description }),
            ),
            final(self).ignored_defaults == old(self).ignored_defaults,
    {
        self.ports.push(PortMapping { name, port, description });
    }

    /// Removes every user-store mapping named `name`; reports whether any
    /// entry was removed. The ignore list and the defaults are untouched.
    pub fn remove_port(&mut self, name: &str) -> (r: bool)
        ensures
            final(self).ports@ == remove_named(old(self).ports@, name@),
            final(self).ignored_defaults == old(self).ignored_defaults,
            r == has_mapping(old(self).ports@, name@),
    {
        let ghost orig = self.ports@;
        let mut kept: Vec<PortMapping> = Vec::new();
        let mut removed = false;
        let mut i: usize = 0;
        proof {
            assert(orig.subrange(0, orig.len() as int) =~= orig);
            assert(Seq::<PortMapping>::empty() + remove_named(orig, name@) =~= remove_named(
                orig,
                name@,
            ));
        }
        while i < self.ports.len()
            invariant
                i <= orig.len(),
                orig == self.ports@,
                remove_named(orig, name@) == kept@ + remove_named(
                    orig.subrange(i as int, orig.len() as int),
                    name@,
                ),
                removed == has_mapping(orig.subrange(0, i as int), name@),
            decreases orig.len() - i,
        {
            proof {
                let rest = orig.subrange(i as int, orig.len() as int);
                assert(rest[0] == orig[i as int]);
                assert(rest.drop_first() =~= orig.subrange(i as int + 1, orig.len() as int));
                assert(orig.subrange(0, i as int + 1) =~= orig.subrange(0, i as int).push(
                    orig[i as int],
                ));
                assert(forall|j: int|
                    0 <= j < i + 1 ==> orig.subrange(0, i as int + 1)[j] == orig[j]);
                assert(forall|j: int| 0 <= j < i ==> orig.subrange(0, i as int)[j] == orig[j]);
            }
            if str_eq(self.ports[i].name.as_str(), name) {
                removed = true;
                proof {
                    assert(orig.subrange(0, i as int + 1)[i as int]@.name == name@);
                    assert(has_mapping(orig.subrange(0, i as int + 1), name@));
                }
            } else {
                let ghost prev = kept@;
                kept.push(self.ports[i].clone());
                proof {
                    assert(kept@ =~= prev + seq![orig[i as int]]);
                    assert((prev + seq![orig[i as int]]) + remove_named(
                        orig.subrange(i as int + 1, orig.len() as int),
                        name@,
                    ) =~= prev + (seq![orig[i as int]] + remove_named(
                        orig.subrange(i as int + 1, orig.len() as int),
                        name@,
                    )));
                    if has_mapping(orig.subrange(0, i as int + 1), name@) {
                        let j = choose|j: int|
                            0 <= j < i + 1 && (#[trigger] orig.subrange(0, i as int + 1)[j])@.name
                                == name@;
                        assert(j < i + 1);
                        if j < i {
                            assert(orig.subrange(0, i as int)[j]@.name == name@);
                        }
                    }
                }
            }
            i += 1;
        }
        proof {
            assert(orig.subrange(i as int, orig.len() as int) =~= Seq::<PortMapping>::empty());
            assert(kept@ + Seq::<PortMapping>::empty() =~= kept@);
            assert(orig.subrange(0, i as int) =~= orig);
        }
        self.ports = kept;
        removed
    }

    /// Resolves `name` through the three tiers: the first user entry of that
    /// name, else nothing if the name is ignored, else the first defaults
    /// entry of that name.
    pub fn find_port(&self, name: &str, defaults: &DefaultsConfig) -> (r: Option<PortMapping>)
        ensures
            r == spec_resolve(*self, *defaults, name@),
    {
        let mut i: usize = 0;
        proof {
            assert(self.ports@.subrange(0, self.ports@.len() as int) =~= self.ports@);
        }
        while i < self.ports.len()
            invariant
                i <= self.ports@.len(),
                spec_find(self.ports@, name@) == spec_find(
                    self.ports@.subrange(i as int, self.ports@.len() as int),
                    name@,
                ),
            decreases self.ports@.len() - i,
        {
            proof {
                let rest = self.ports@.subrange(i as int, self.ports@.len() as int);
                assert(rest[0] == self.ports@[i as int]);
                assert(rest.drop_first() =~= self.ports@.subrange(
                    i as int + 1,
                    self.ports@.len() as int,
                ));
            }
            if str_eq(self.ports[i].name.as_str(), name) {
                return Some(self.ports[i].clone());
            }
            i += 1;
        }
        proof {
            assert(self.ports@.subrange(i as int, self.ports@.len() as int)
                =~= Seq::<PortMapping>::empty());
        }
        let mut j: usize = 0;
        while j < self.ignored_defaults.len()
            invariant
                j <= self.ignored_defaults@.len(),
                spec_find(self.ports@, name@) is None,
                forall|k: int| 0 <= k < j ==> #[trigger] self.ignored_defaults@[k]@ != name@,
            decreases self.ignored_defaults@.len() - j,
        {
            if str_eq(self.ignored_defaults[j].as_str(), name) {
                return None;
            }
            j += 1;
        }
        let mut k: usize = 0;
        proof {
            assert(defaults.ports@.subrange(0, defaults.ports@.len() as int) =~= defaults.ports@);
        }
        while k < defaults.ports.len()
            invariant
                k <= defaults.ports@.len(),
                spec_find(self.ports@, name@) is None,
                !contains_name(self.ignored_defaults@, name@),
                spec_find(defaults.ports@, name@) == spec_find(
                    defaults.ports@.subrange(k as int, defaults.ports@.len() as int),
                    name@,
                ),
            decreases defaults.ports@.len() - k,
        {
            proof {
                let rest = defaults.ports@.subrange(k as int, defaults.ports@.len() as int);
                assert(rest[0] == defaults.ports@[k as int]);
                assert(rest.drop_first() =~= defaults.ports@.subrange(
                    k as int + 1,
                    defaults.ports@.len() as int,
                ));
            }
            if str_eq(defaults.ports[k].name.as_str(), name) {
                return Some(defaults.ports[k].clone());
            }
            k += 1;
        }
        proof {
            assert(defaults.ports@.subrange(k as int, defaults.ports@.len() as int)
                =~= Seq::<PortMapping>::empty());
        }
        None
    }

    /// The user store's entries, in insertion order; defaults are excluded
    /// on purpose, listing shows only what the user pinned.
    pub fn list_ports(&self) -> (r: &[PortMapping])
        ensures
            r@ == self.ports@,
    {
        self.ports.as_slice()
    }

    /// Every port claimed by either store, ranges expanded, without
    /// duplicates: the exclusion set for allocation.
    pub fn get_used_ports(&self, defaults: &DefaultsConfig) -> (r: Vec<u16>)
        ensures
            forall|p: u16|
                r@.contains(p) <==> covers(self.ports@, p) || covers(defaults.ports@, p),
            r@.no_duplicates(),
    {
        let mut out: Vec<u16> = Vec::new();
        let mut i: usize = 0;
        while i < self.ports.len()
            invariant
                i <= self.ports@.len(),
                out@.no_duplicates(),
                forall|p: u16|
                    out@.contains(p) <==> covers(self.ports@.subrange(0, i as int), p),
            decreases self.ports@.len() - i,
        {
            let ghost before = out@;
            let v: PortSpec = self.ports[i].port;
            add_spec_ports(&mut out, v);
            proof {
                assert(v == self.ports@[i as int].port);
                assert forall|p: u16|
                    out@.contains(p) <==> covers(self.ports@.subrange(0, i as int + 1), p) by {
                    lemma_covers_extend(self.ports@, i as int, p);
                    assert(port_spec_covers(v, p) ==> out@.contains(p));
                    assert(out@.contains(p) <==> before.contains(p) || port_spec_covers(v, p));
                    assert(before.contains(p) <==> covers(self.ports@.subrange(0, i as int), p));
                }
            }
            i += 1;
        }
        proof {
            assert(self.ports@.subrange(0, i as int) =~= self.ports@);
        }
        let mut k: usize = 0;
        while k < defaults.ports.len()
            invariant
                k <= defaults.ports@.len(),
                out@.no_duplicates(),
                forall|p: u16|
                    out@.contains(p) <==> covers(self.ports@, p) || covers(
                        defaults.ports@.subrange(0, k as int),
                        p,
                    ),
            decreases defaults.ports@.len() - k,
        {
            let ghost before = out@;
            let v: PortSpec = defaults.ports[k].port;
            add_spec_ports(&mut out, v);
            proof {
                assert(v == defaults.ports@[k as int].port);
                assert forall|p: u16|
                    out@.contains(p) <==> covers(self.ports@, p) || covers(
                        defaults.ports@.subrange(0, k as int + 1),
                        p,
                    ) by {
                    lemma_covers_extend(defaults.ports@, k as int, p);
                    assert(port_spec_covers(v, p) ==> out@.contains(p));
                    assert(out@.contains(p) <==> before.contains(p) || port_spec_covers(v, p));
                    assert(before.contains(p) <==> covers(self.ports@, p) || covers(
                        defaults.ports@.subrange(0, k as int),
                        p,
                    ));
                }
            }
            k += 1;
        }
        proof {
            assert(defaults.ports@.subrange(0, k as int) =~= defaults.ports@);
        }
        out
    }
}

} // verus!
