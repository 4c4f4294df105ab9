//! The static check of a display format string: a binary, hex or octal
//! conversion is not defined on a `real` argument (`%f %g %e %d` are).

use vstd::prelude::*;
use vstd::string::StrSliceExecFns;
use crate::elab::{Elaborator, MsgCode, Severity};

verus! {

/// A width / precision modifier character of a conversion.
pub open spec fn is_modifier(c: char) -> bool {
    ('0' <= c && c <= '9') || c == '.'
}

/// A binary, hex or octal conversion character.
pub open spec fn is_radix(c: char) -> bool {
    c == 'b' || c == 'B' || c == 'h' || c == 'H' || c == 'x' || c == 'X' || c == 'o' || c == 'O'
}

/// The argument-consuming conversions of `f` from position `i`, in order,
/// each marked whether it is a radix conversion. `%%` and `%m` consume no
/// argument; a `%` at the end ends the scan.
pub open spec fn conv_from(f: Seq<char>, i: int) -> Seq<bool>
    decreases f.len() - i, 1int,
{
    if i < 0 || i >= f.len() {
        Seq::empty()
    } else if f[i] != '%' {
        conv_from(f, i + 1)
    } else {
        after_pct(f, i + 1)
    }
}

/// The conversions of `f` when position `j` follows a `%` (and the
/// modifiers read so far).
pub open spec fn after_pct(f: Seq<char>, j: int) -> Seq<bool>
    decreases f.len() - j, 0int,
{
    if j < 0 || j >= f.len() {
        Seq::empty()
    } else if is_modifier(f[j]) {
        after_pct(f, j + 1)
    } else if f[j] == '%' || f[j] == 'm' {
        conv_from(f, j + 1)
    } else {
        seq![is_radix(f[j])] + conv_from(f, j + 1)
    }
}

/// The message of a radix conversion over a real argument.
pub open spec fn radix_real_msg() -> Seq<char> {
    "binary/hex/octal format not defined on a real argument"@
}

impl Elaborator {
    /// How many of the conversions `convs` are radix conversions whose
    /// positional argument (the one at the same index of `args`) is real.
    pub open spec fn radix_real_bad(&self, convs: Seq<bool>, args: Seq<u32>) -> nat
        decreases convs.len(),
    {
        if convs.len() == 0 {
            0
        } else {
            let k = convs.len() - 1;
            self.radix_real_bad(convs.drop_last(), args) + if convs[k] && k < args.len()
                && self.is_real(args[k] as int) {
                1nat
            } else {
                0nat
            }
        }
    }

    fn count_radix_real(&self, fmt: &str, arg_ids: &[u32]) -> (n: usize)
        requires
            self.wf(),
        ensures
            n == self.radix_real_bad(conv_from(fmt@, 0), arg_ids@),
    {
        let len = fmt.unicode_len();
        let mut i: usize = 0;
        let mut in_conv = false;
        let mut argi: usize = 0;
        let mut n: usize = 0;
        let ghost mut done: Seq<bool> = Seq::empty();
        assert(done + conv_from(fmt@, 0) =~= conv_from(fmt@, 0));
        while i < len
            invariant
                self.wf(),
                len == fmt@.len(),
                i <= len,
                argi == done.len(),
                argi <= i,
                n <= argi,
                n == self.radix_real_bad(done, arg_ids@),
                done + (if in_conv {
                    after_pct(fmt@, i as int)
                } else {
                    conv_from(fmt@, i as int)
                }) == conv_from(fmt@, 0),
            decreases len - i,
        {
            let c = fmt.get_char(i);
            if !in_conv {
                if c == '%' {
                    in_conv = true;
                }
            } else if ('0' <= c && c <= '9') || c == '.' {
            } else if c == '%' || c == 'm' {
                in_conv = false;
            } else {
                let radix = c == 'b' || c == 'B' || c == 'h' || c == 'H' || c == 'x' || c == 'X'
                    || c == 'o' || c == 'O';
                let ghost before = done;
                proof {
                    done = done.push(radix);
                    assert(done.drop_last() =~= before);
                    assert(before + (seq![radix] + conv_from(fmt@, i as int + 1)) =~= done
                        + conv_from(fmt@, i as int + 1));
                }
                if radix && argi < arg_ids.len() && self.expr_is_real(arg_ids[argi]) {
                    n += 1;
                }
                argi += 1;
                in_conv = false;
            }
            i += 1;
        }
        assert(done + Seq::<bool>::empty() =~= done);
        n
    }

    /// Reject a binary, hex or octal conversion of the literal format string
    /// `fmt` whose positional argument (of `arg_ids`) is real: one error per
    /// such conversion. `%%` and `%m` take no argument; every other
    /// conversion takes the next one.
    pub fn check_format_real_radix(&mut self, fmt: &str, arg_ids: &[u32])
        requires
            old(self).wf(),
        ensures
            ({
                let n = old(self).radix_real_bad(conv_from(fmt@, 0), arg_ids@);
                &&& final(self).diags@.len() == old(self).diags@.len() + n
                &&& final(self).diags@.take(old(self).diags@.len() as int) == old(self).diags@
                &&& forall|k: int| old(self).diags@.len() <= k < final(self).diags@.len() ==> {
                    &&& (#[trigger] final(self).diags@[k]).severity == Severity::Error
                    &&& final(self).diags@[k].code == MsgCode::ElabUnsupported
                    &&& final(self).diags@[k].message@ == radix_real_msg()
                }
                &&& final(self).had_error == (old(self).had_error || n > 0)
            }),
            final(self).exprs == old(self).exprs,
            final(self).consts == old(self).consts,
            final(self).nets == old(self).nets,
            final(self).func_metas == old(self).func_metas,
            final(self).canon == old(self).canon,
            final(self).repeatable == old(self).repeatable,
            final(self).tables == old(self).tables,
            final(self).bodies == old(self).bodies,
            final(self).size_cast_real_reported == old(self).size_cast_real_reported,
    {
        let n = self.count_radix_real(fmt, arg_ids);
        let mut k: usize = 0;
        while k < n
            invariant
                k <= n,
                self.diags@.len() == old(self).diags@.len() + k,
                self.diags@.take(old(self).diags@.len() as int) == old(self).diags@,
                forall|j: int| old(self).diags@.len() <= j < self.diags@.len() ==> {
                    &&& (#[trigger] self.diags@[j]).severity == Severity::Error
                    &&& self.diags@[j].code == MsgCode::ElabUnsupported
                    &&& self.diags@[j].message@ == radix_real_msg()
                },
                self.had_error == (old(self).had_error || k > 0),
                self.exprs == old(self).exprs,
                self.consts == old(self).consts,
                self.nets == old(self).nets,
                self.func_metas == old(self).func_metas,
                self.canon == old(self).canon,
                self.repeatable == old(self).repeatable,
                self.tables == old(self).tables,
                self.bodies == old(self).bodies,
                self.size_cast_real_reported == old(self).size_cast_real_reported,
            decreases n - k,
        {
            let ghost d0 = self.diags@;
            self.error(MsgCode::ElabUnsupported, "binary/hex/octal format not defined on a real argument");
            proof {
                assert(self.diags@.take(old(self).diags@.len() as int) =~= d0.take(
                    old(self).diags@.len() as int,
                ));
            }
            k += 1;
        }
    }
}

impl Elaborator {
    /// Without a real argument no conversion is refused, whatever the
    /// format says.
    pub proof fn lemma_no_real_argument_no_refusal(&self, convs: Seq<bool>, args: Seq<u32>)
        requires
            forall|k: int| 0 <= k < args.len() ==> !self.is_real(#[trigger] args[k] as int),
        ensures
            self.radix_real_bad(convs, args) == 0,
        decreases convs.len(),
    {
        if convs.len() > 0 {
            self.lemma_no_real_argument_no_refusal(convs.drop_last(), args);
            let k = convs.len() - 1;
            if k < args.len() {
                assert(!self.is_real(args[k] as int));
            }
        }
    }
}

} // verus!
