//! Reads of `pkg::NAME`: which package table binds the name, in the order
//! the lowering binds it (real, string, wide constant, numeric constant,
//! package variable), and the width and sign such a read has.

use vstd::prelude::*;
use crate::elab::{Elaborator, PkgEntry};
use crate::names::contains_u32;

verus! {

/// The value of the first entry of `s` for `pkg::name`.
pub open spec fn pkg_find<V>(s: Seq<PkgEntry<V>>, pkg: Seq<char>, name: Seq<char>) -> Option<V>
    decreases s.len(),
{
    if s.len() == 0 {
        None
    } else if s[0].pkg@ == pkg && s[0].name@ == name {
        Some(s[0].val)
    } else {
        pkg_find(s.drop_first(), pkg, name)
    }
}

/// `pkg::name` is entered at most once: the table is a map.
pub open spec fn pkg_keys_unique<V>(s: Seq<PkgEntry<V>>) -> bool {
    forall|a: int, b: int|
        0 <= a < b < s.len() ==> !((#[trigger] s[a]).pkg@ == (#[trigger] s[b]).pkg@ && s[a].name@ == s[b].name@)
}

/// In a table that is a map, the first entry for `pkg::name` is its only
/// one: the lookup gives a value exactly when the table holds an entry
/// with that value.
pub proof fn lemma_pkg_find_is_map_get<V>(s: Seq<PkgEntry<V>>, pkg: Seq<char>, name: Seq<char>, v: V)
    requires
        pkg_keys_unique(s),
    ensures
        pkg_find(s, pkg, name) == Some(v) <==> exists|i: int|
            0 <= i < s.len() && (#[trigger] s[i]).pkg@ == pkg && s[i].name@ == name && s[i].val == v,
    decreases s.len(),
{
    if s.len() > 0 {
        let t = s.drop_first();
        assert(pkg_keys_unique(t)) by {
            assert forall|a: int, b: int| 0 <= a < b < t.len() implies !((#[trigger] t[a]).pkg@ == (#[trigger] t[b]).pkg@
                && t[a].name@ == t[b].name@) by {
                assert(t[a] == s[a + 1]);
                assert(t[b] == s[b + 1]);
            }
        }
        lemma_pkg_find_is_map_get(t, pkg, name, v);
        if exists|i: int| 0 <= i < s.len() && (#[trigger] s[i]).pkg@ == pkg && s[i].name@ == name && s[i].val == v {
            let i = choose|i: int| 0 <= i < s.len() && (#[trigger] s[i]).pkg@ == pkg && s[i].name@ == name && s[i].val == v;
            if i > 0 {
                assert(t[i - 1] == s[i]);
            }
        }
        if exists|i: int| 0 <= i < t.len() && (#[trigger] t[i]).pkg@ == pkg && t[i].name@ == name && t[i].val == v {
            let i = choose|i: int| 0 <= i < t.len() && (#[trigger] t[i]).pkg@ == pkg && t[i].name@ == name && t[i].val == v;
            assert(s[i + 1] == t[i]);
        }
    }
}

/// The first entry of `t` for `pkg::name`.
pub fn find_pkg<V: Copy>(t: &Vec<PkgEntry<V>>, pkg: &String, name: &String) -> (r: Option<V>)
    ensures
        r == pkg_find(t@, pkg@, name@),
{
    let mut i: usize = 0;
    assert(t@.skip(0) =~= t@);
    while i < t.len()
        invariant
            i <= t@.len(),
            pkg_find(t@, pkg@, name@) == pkg_find(t@.skip(i as int), pkg@, name@),
        decreases t@.len() - i,
    {
        assert(t@.skip(i as int).drop_first() =~= t@.skip(i as int + 1));
        if t[i].pkg == *pkg && t[i].name == *name {
            return Some(t[i].val);
        }
        i += 1;
    }
    None
}

/// The width a parameter read materializes with: the declared width when
/// it is at least one, else 32 bits when the value fits `u32` or `i32`,
/// else 64.
pub open spec fn param_width(v: i64, meta: Option<(u32, bool)>) -> u32 {
    match meta {
        Some((w, _)) if w >= 1 => w,
        _ => if (0 <= v <= u32::MAX as i64) || (i32::MIN as i64 <= v <= i32::MAX as i64) {
            32
        } else {
            64
        },
    }
}

/// The sign a parameter read materializes with: the declared sign when a
/// width is declared, else that of an untyped integer, signed.
pub open spec fn param_signed(meta: Option<(u32, bool)>) -> bool {
    match meta {
        Some((w, s)) if w >= 1 => s,
        _ => true,
    }
}

impl Elaborator {
    /// Is `net` a fixed-size unpacked array (no value as a whole)?
    pub open spec fn is_static_array(&self, net: int) -> bool {
        exists|i: int| 0 <= i < self.tables.static_array_nets@.len()
            && self.tables.static_array_nets@[i] as int == net
    }

    /// Every package table is a map from `pkg::name`.
    pub open spec fn pkg_tables_wf(&self) -> bool {
        &&& pkg_keys_unique(self.tables.pkg_real@)
        &&& pkg_keys_unique(self.tables.pkg_str@)
        &&& pkg_keys_unique(self.tables.pkg_wide@)
        &&& pkg_keys_unique(self.tables.pkg_consts@)
        &&& pkg_keys_unique(self.tables.pkg_const_meta@)
        &&& pkg_keys_unique(self.tables.pkg_vars@)
    }

    /// The width `pkg::name` reads with, where it is a bit vector.
    pub open spec fn pkg_read_width(&self, pkg: Seq<char>, name: Seq<char>) -> Option<u32> {
        let t = self.tables;
        if pkg_find(t.pkg_real@, pkg, name) is Some || pkg_find(t.pkg_str@, pkg, name) is Some {
            None
        } else {
            match pkg_find(t.pkg_wide@, pkg, name) {
                Some(cv) => Some(cv.width),
                None => match pkg_find(t.pkg_consts@, pkg, name) {
                    Some(v) => Some(param_width(v, pkg_find(t.pkg_const_meta@, pkg, name))),
                    None => match pkg_find(t.pkg_vars@, pkg, name) {
                        Some(net) => if self.is_static_array(net as int) {
                            None
                        } else {
                            self.read_width(net as int)
                        },
                        None => None,
                    },
                },
            }
        }
    }

    /// The sign `pkg::name` reads with, where it is a bit vector.
    pub open spec fn pkg_read_signed(&self, pkg: Seq<char>, name: Seq<char>) -> Option<bool> {
        let t = self.tables;
        if pkg_find(t.pkg_real@, pkg, name) is Some || pkg_find(t.pkg_str@, pkg, name) is Some {
            None
        } else {
            match pkg_find(t.pkg_wide@, pkg, name) {
                Some(cv) => Some(cv.signed),
                None => match pkg_find(t.pkg_consts@, pkg, name) {
                    Some(v) => Some(param_signed(pkg_find(t.pkg_const_meta@, pkg, name))),
                    None => match pkg_find(t.pkg_vars@, pkg, name) {
                        Some(net) => if self.is_static_array(net as int) || (net as int)
                            >= self.nets@.len() {
                            None
                        } else {
                            Some(self.nets@[net as int].signed)
                        },
                        None => None,
                    },
                },
            }
        }
    }

    /// The width a parameter of value `v` and declared `meta` reads with.
    pub fn param_const_width(v: i64, meta: Option<(u32, bool)>) -> (r: u32)
        ensures
            r == param_width(v, meta),
    {
        match meta {
            Some((w, _)) if w >= 1 => w,
            _ => {
                if (0 <= v && v <= u32::MAX as i64) || (i32::MIN as i64 <= v && v <= i32::MAX as i64) {
                    32
                } else {
                    64
                }
            },
        }
    }

    /// The sign a parameter of declared `meta` reads with.
    pub fn param_const_signed(meta: Option<(u32, bool)>) -> (r: bool)
        ensures
            r == param_signed(meta),
    {
        match meta {
            Some((w, s)) if w >= 1 => s,
            _ => true,
        }
    }

    pub(crate) fn net_is_static_array(&self, net: u32) -> (r: bool)
        ensures
            r == self.is_static_array(net as int),
    {
        let r = contains_u32(&self.tables.static_array_nets, net);
        proof {
            if self.is_static_array(net as int) {
                let i = choose|i: int| 0 <= i < self.tables.static_array_nets@.len()
                    && self.tables.static_array_nets@[i] as int == net as int;
                assert(self.tables.static_array_nets@[i] == net);
            }
        }
        r
    }

    /// The width `pkg::name` reads with: none for a real or string, a wide
    /// constant's width, a numeric constant's materialized width, a package
    /// variable's read width (none for a whole unpacked array), and none for
    /// an unknown symbol.
    pub fn pkg_const_read_width(&self, pkg: &str, name: &str) -> (r: Option<u32>)
        requires
            self.pkg_tables_wf(),
        ensures
            r == self.pkg_read_width(pkg@, name@),
    {
        let p = pkg.to_owned();
        let n = name.to_owned();
        let t = &self.tables;
        if find_pkg(&t.pkg_real, &p, &n).is_some() || find_pkg(&t.pkg_str, &p, &n).is_some() {
            return None;
        }
        if let Some(cv) = find_pkg(&t.pkg_wide, &p, &n) {
            return Some(cv.width);
        }
        if let Some(v) = find_pkg(&t.pkg_consts, &p, &n) {
            let meta = find_pkg(&t.pkg_const_meta, &p, &n);
            return Some(Self::param_const_width(v, meta));
        }
        let net = match find_pkg(&t.pkg_vars, &p, &n) {
            Some(net) => net,
            None => return None,
        };
        if self.net_is_static_array(net) {
            return None;
        }
        self.signal_read_width(net)
    }

    /// The sign `pkg::name` reads with, in the same order as
    /// [`Self::pkg_const_read_width`].
    pub fn pkg_const_read_signed(&self, pkg: &str, name: &str) -> (r: Option<bool>)
        requires
            self.pkg_tables_wf(),
        ensures
            r == self.pkg_read_signed(pkg@, name@),
    {
        let p = pkg.to_owned();
        let n = name.to_owned();
        let t = &self.tables;
        if find_pkg(&t.pkg_real, &p, &n).is_some() || find_pkg(&t.pkg_str, &p, &n).is_some() {
            return None;
        }
        if let Some(cv) = find_pkg(&t.pkg_wide, &p, &n) {
            return Some(cv.signed);
        }
        if let Some(_v) = find_pkg(&t.pkg_consts, &p, &n) {
            let meta = find_pkg(&t.pkg_const_meta, &p, &n);
            return Some(Self::param_const_signed(meta));
        }
        let net = match find_pkg(&t.pkg_vars, &p, &n) {
            Some(net) => net,
            None => return None,
        };
        if self.net_is_static_array(net) {
            return None;
        }
        if (net as usize) < self.nets.len() {
            Some(self.nets[net as usize].signed)
        } else {
            None
        }
    }
}

} // verus!
