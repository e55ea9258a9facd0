//! The command line, spelled out.

use vstd::prelude::*;

use crate::cli::digits_value;
use crate::cli::flag;
use crate::cli::number;
use crate::cli::number_of;
use crate::cli::parse;
use crate::cli::reading;
use crate::cli::texts;
use crate::cli::unsigned;
use crate::cli::Asked;
use crate::cli::Command;
use crate::cli::Flag;
use crate::cli::Options;
use crate::cli::Reading;

verus! {

/// The value of decimal digits, the first being the most significant.
pub open spec fn value_of_digits(d: Seq<char>) -> int {
    d.fold_left(0int, |v: int, c: char| 10 * v + (c as int - '0' as int))
}

proof fn lemma_value(d: Seq<char>)
    ensures
        digits_value(d) == value_of_digits(d),
    decreases d.len(),
{
    if d.len() > 0 {
        lemma_value(d.drop_last());
    }
}

/// A text without the plus sign that it may begin with.
pub open spec fn behind_plus(s: Seq<char>) -> Seq<char> {
    if s.len() > 0 && s[0] == '+' {
        s.subrange(1, s.len() as int)
    } else {
        s
    }
}

/// Decimal digits, one at least, of a value that can be held.
pub open spec fn is_count(d: Seq<char>) -> bool {
    &&& d.len() > 0
    &&& forall|i: int| 0 <= i < d.len() ==> '0' <= #[trigger] d[i] <= '9'
    &&& value_of_digits(d) <= usize::MAX
}

/// A number is decimal digits, behind a plus sign or not, whose value can be held.
pub proof fn numbers_are_decimal_digits(s: &str, r: Option<usize>)
    requires
        call_ensures(number, (s,), r),
    ensures
        r is Some <==> is_count(behind_plus(s@)),
        r is Some ==> r->0 == value_of_digits(behind_plus(s@)),
{
    let d = unsigned(s@);
    assert(d =~= behind_plus(s@));
    lemma_value(d);
    if is_count(d) {
        assert forall|i: int| 0 <= i < d.len() implies crate::cli::is_digit(#[trigger] d[i]) by {}
        lemma_not_negative(d);
    }
    if r is Some {
        assert forall|i: int| 0 <= i < d.len() implies '0' <= #[trigger] d[i] <= '9' by {
            assert(crate::cli::is_digit(d[i]));
        }
        lemma_not_negative(d);
    }
}

proof fn lemma_not_negative(d: Seq<char>)
    requires
        forall|i: int| 0 <= i < d.len() ==> '0' <= #[trigger] d[i] <= '9',
    ensures
        0 <= digits_value(d),
    decreases d.len(),
{
    if d.len() > 0 {
        lemma_not_negative(d.drop_last());
    }
}

/// The names of the flags.
pub proof fn flags_have_these_names(a: &str, r: Option<Flag>)
    requires
        call_ensures(flag, (a,), r),
    ensures
        r == Some(Flag::Model) ==> a@ == "-m"@ || a@ == "--model"@,
        r == Some(Flag::Input) ==> a@ == "-i"@ || a@ == "--input"@,
        r == Some(Flag::Output) ==> a@ == "-o"@ || a@ == "--output"@,
        r == Some(Flag::Device) ==> a@ == "--device"@,
        r == Some(Flag::Tile) ==> a@ == "--tile"@,
        r == Some(Flag::TilePad) ==> a@ == "--tile-pad"@,
        r == Some(Flag::Outscale) ==> a@ == "--outscale"@,
        r == Some(Flag::Quiet) ==> a@ == "-q"@ || a@ == "--quiet"@,
        r == Some(Flag::CudaSelftest) ==> a@ == "--cuda-selftest"@,
        r == Some(Flag::SelfTest) ==> a@ == "--self-test"@,
        r == Some(Flag::BenchConv) ==> a@ == "--bench-conv"@,
        r == Some(Flag::BenchGemm) ==> a@ == "--bench-gemm"@,
        r == Some(Flag::Help) ==> a@ == "-h"@ || a@ == "--help"@,
        r == Some(Flag::Version) ==> a@ == "-V"@ || a@ == "--version"@,
        r is None ==> no_flag(a@),
{
}

/// An argument that is no flag.
pub open spec fn no_flag(a: Seq<char>) -> bool {
    &&& a != "-m"@ && a != "--model"@
    &&& a != "-i"@ && a != "--input"@
    &&& a != "-o"@ && a != "--output"@
    &&& a != "--device"@ && a != "--tile"@ && a != "--tile-pad"@ && a != "--outscale"@
    &&& a != "-q"@ && a != "--quiet"@
    &&& a != "--cuda-selftest"@ && a != "--self-test"@
    &&& a != "--bench-conv"@ && a != "--bench-gemm"@
    &&& a != "-h"@ && a != "--help"@
    &&& a != "-V"@ && a != "--version"@
}

/// Argument `i` turns what was asked for from `o` into `p`, and reading goes on at `j`.
/// A text may be missing where it ends the line; a device or a number may not.
pub open spec fn goes_on(t: Seq<Seq<char>>, i: int, o: Asked, j: int, p: Asked) -> bool {
    let a = t[i];
    let next = if i + 1 < t.len() {
        Some(t[i + 1])
    } else {
        None
    };
    ||| (a == "-m"@ || a == "--model"@) && j == i + 2 && p == (Asked { model: next, ..o })
    ||| (a == "-i"@ || a == "--input"@) && j == i + 2 && p == (Asked { input: next, ..o })
    ||| (a == "-o"@ || a == "--output"@) && j == i + 2 && p == (Asked { output: next, ..o })
    ||| a == "--outscale"@ && j == i + 2 && p == (Asked { outscale: next, ..o })
    ||| {
        &&& a == "--device"@
        &&& i + 1 < t.len()
        &&& j == i + 2
        &&& p == (Asked { device: t[i + 1], ..o })
    }
    ||| {
        &&& a == "--tile"@
        &&& i + 1 < t.len()
        &&& j == i + 2
        &&& number_of(t[i + 1]) is Some
        &&& p == (Asked { tile: number_of(t[i + 1])->0, ..o })
    }
    ||| {
        &&& a == "--tile-pad"@
        &&& i + 1 < t.len()
        &&& j == i + 2
        &&& number_of(t[i + 1]) is Some
        &&& p == (Asked { tile_pad: number_of(t[i + 1])->0, ..o })
    }
    ||| (a == "-q"@ || a == "--quiet"@) && j == i + 1 && p == (Asked { quiet: true, ..o })
    ||| a == "--cuda-selftest"@ && j == i + 1 && p == (Asked { cuda_selftest: true, ..o })
    ||| a == "--self-test"@ && j == i + 1 && p == (Asked { self_test: true, ..o })
    ||| a == "--bench-conv"@ && j == i + 1 && p == (Asked { bench_conv: true, ..o })
    ||| a == "--bench-gemm"@ && j == i + 1 && p == (Asked { bench_gemm: true, ..o })
}

/// Reading ends at argument `i` with `r`: at the end of the line with what was asked for,
/// and before it for help, the version, an unknown argument, or a value that is missing
/// or no number.
pub open spec fn ends(t: Seq<Seq<char>>, i: int, o: Asked, r: Reading) -> bool {
    if i >= t.len() {
        r == Reading::Run(o)
    } else {
        let a = t[i];
        let is_number = i + 1 < t.len() && number_of(t[i + 1]) is Some;
        ||| (a == "-h"@ || a == "--help"@) && r == Reading::Usage
        ||| (a == "-V"@ || a == "--version"@) && r == Reading::Version
        ||| a == "--device"@ && i + 1 >= t.len() && r == Reading::Usage
        ||| (a == "--tile"@ || a == "--tile-pad"@) && !is_number && r == Reading::Usage
        ||| no_flag(a) && r == Reading::Unknown(a)
    }
}

proof fn lemma_reading(t: Seq<Seq<char>>, i: int, o: Asked) -> (s: (Seq<int>, Seq<Asked>))
    requires
        0 <= i,
    ensures
        s.0.len() > 0,
        s.1.len() == s.0.len(),
        s.0[0] == i,
        s.1[0] == o,
        forall|k: int|
            0 <= k < s.0.len() - 1 ==> s.0[k] < t.len() && goes_on(
                t,
                #[trigger] s.0[k],
                s.1[k],
                s.0[k + 1],
                s.1[k + 1],
            ),
        ends(t, s.0.last(), s.1.last(), reading(t, i, o)),
    decreases t.len() - i + 1, 1int,
{
    let n = t.len() as int;
    if i >= n {
        (seq![i], seq![o])
    } else {
        let next = crate::cli::nth(t, i + 1);
        let num = crate::cli::nth_number(t, i + 1);
        match crate::cli::flag_of(t[i]) {
            None => (seq![i], seq![o]),
            Some(Flag::Help) => (seq![i], seq![o]),
            Some(Flag::Version) => (seq![i], seq![o]),
            Some(Flag::Model) => lemma_on(t, i, o, i + 2, (Asked { model: next, ..o })),
            Some(Flag::Input) => lemma_on(t, i, o, i + 2, (Asked { input: next, ..o })),
            Some(Flag::Output) => lemma_on(t, i, o, i + 2, (Asked { output: next, ..o })),
            Some(Flag::Outscale) => lemma_on(t, i, o, i + 2, (Asked { outscale: next, ..o })),
            Some(Flag::Device) => match next {
                Some(d) => lemma_on(t, i, o, i + 2, (Asked { device: d, ..o })),
                None => (seq![i], seq![o]),
            },
            Some(Flag::Tile) => match num {
                Some(v) => lemma_on(t, i, o, i + 2, (Asked { tile: v, ..o })),
                None => (seq![i], seq![o]),
            },
            Some(Flag::TilePad) => match num {
                Some(v) => lemma_on(t, i, o, i + 2, (Asked { tile_pad: v, ..o })),
                None => (seq![i], seq![o]),
            },
            Some(Flag::Quiet) => lemma_on(t, i, o, i + 1, (Asked { quiet: true, ..o })),
            Some(Flag::CudaSelftest) => lemma_on(
                t,
                i,
                o,
                i + 1,
                (Asked { cuda_selftest: true, ..o }),
            ),
            Some(Flag::SelfTest) => lemma_on(t, i, o, i + 1, (Asked { self_test: true, ..o })),
            Some(Flag::BenchConv) => lemma_on(t, i, o, i + 1, (Asked { bench_conv: true, ..o })),
            Some(Flag::BenchGemm) => lemma_on(t, i, o, i + 1, (Asked { bench_gemm: true, ..o })),
        }
    }
}

proof fn lemma_on(t: Seq<Seq<char>>, i: int, o: Asked, j: int, p: Asked) -> (s: (
    Seq<int>,
    Seq<Asked>,
))
    requires
        0 <= i < t.len(),
        i < j,
        goes_on(t, i, o, j, p),
        reading(t, i, o) == reading(t, j, p),
    ensures
        s.0.len() > 0,
        s.1.len() == s.0.len(),
        s.0[0] == i,
        s.1[0] == o,
        forall|k: int|
            0 <= k < s.0.len() - 1 ==> s.0[k] < t.len() && goes_on(
                t,
                #[trigger] s.0[k],
                s.1[k],
                s.0[k + 1],
                s.1[k + 1],
            ),
        ends(t, s.0.last(), s.1.last(), reading(t, i, o)),
    decreases t.len() - i + 1, 0int,
{
    let f = lemma_reading(t, j, p);
    let s = (seq![i] + f.0, seq![o] + f.1);
    assert forall|k: int| 0 <= k < s.0.len() - 1 implies s.0[k] < t.len() && goes_on(
        t,
        #[trigger] s.0[k],
        s.1[k],
        s.0[k + 1],
        s.1[k + 1],
    ) by {
        if k > 0 {
            assert(s.0[k] == f.0[k - 1] && s.1[k] == f.1[k - 1]);
            assert(s.0[k + 1] == f.0[k] && s.1[k + 1] == f.1[k]);
        }
    }
    s
}

/// A command line is read from its first argument on, what is asked for by default being
/// no tiles, ten pixels of context, and the device that is the program's own. The places
/// where the reading stood are returned, and what was asked for by then.
pub proof fn reading_is_these_steps(args: &Vec<String>, device: &str, r: Command) -> (s: (
    Seq<int>,
    Seq<Asked>,
))
    requires
        call_ensures(parse, (args, device), r),
        args@.len() > 0,
    ensures
        ({
            let t = Seq::new(args@.len(), |i: int| args@[i]@);
            &&& s.0.len() > 0
            &&& s.1.len() == s.0.len()
            &&& s.0[0] == 0
            &&& s.1[0] == (Asked {
                model: None,
                input: None,
                output: None,
                device: device@,
                tile: 0,
                tile_pad: 10,
                outscale: None,
                quiet: false,
                cuda_selftest: false,
                self_test: false,
                bench_conv: false,
                bench_gemm: false,
            })
            &&& forall|k: int|
                0 <= k < s.0.len() - 1 ==> s.0[k] < t.len() && goes_on(
                    t,
                    #[trigger] s.0[k],
                    s.1[k],
                    s.0[k + 1],
                    s.1[k + 1],
                )
            &&& ends(t, s.0.last(), s.1.last(), r@)
        }),
{
    let t = Seq::new(args@.len(), |i: int| args@[i]@);
    assert(texts(args@) =~= t);
    lemma_reading(t, 0, crate::cli::defaults(device@))
}

/// Without arguments the usage is explained.
pub proof fn nothing_asks_for_the_usage(args: &Vec<String>, device: &str, r: Command)
    requires
        call_ensures(parse, (args, device), r),
        args@.len() == 0,
    ensures
        r is Usage,
{
}

/// What a command says is what it holds.
pub proof fn commands_say_what_they_hold(c: Command, o: Options)
    ensures
        c is Usage <==> c@ is Usage,
        c is Version <==> c@ is Version,
        c matches Command::Unknown(a) ==> c@ == Reading::Unknown(a@),
        c matches Command::Run(p) ==> c@ == Reading::Run(p@),
        o@.model is Some <==> o.model is Some,
        o.model is Some ==> o@.model->0 == o.model->0@,
        o@.input is Some <==> o.input is Some,
        o.input is Some ==> o@.input->0 == o.input->0@,
        o@.output is Some <==> o.output is Some,
        o.output is Some ==> o@.output->0 == o.output->0@,
        o@.outscale is Some <==> o.outscale is Some,
        o.outscale is Some ==> o@.outscale->0 == o.outscale->0@,
        o@.device == o.device@,
        o@.tile == o.tile && o@.tile_pad == o.tile_pad,
        o@.quiet == o.quiet,
        o@.cuda_selftest == o.cuda_selftest && o@.self_test == o.self_test,
        o@.bench_conv == o.bench_conv && o@.bench_gemm == o.bench_gemm,
{
}

} // verus!
