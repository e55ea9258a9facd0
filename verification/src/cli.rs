//! The command line.

use vstd::prelude::*;

use crate::text::same_text;

verus! {

/// What the user may ask for.
#[derive(Clone, Copy, PartialEq, Eq, Structural, Debug)]
pub enum Flag {
    Model,
    Input,
    Output,
    Device,
    Tile,
    TilePad,
    Outscale,
    Quiet,
    CudaSelftest,
    SelfTest,
    BenchConv,
    BenchGemm,
    Help,
    Version,
}

/// The flag that an argument is.
pub open spec fn flag_of(a: Seq<char>) -> Option<Flag> {
    if a == "-m"@ || a == "--model"@ {
        Some(Flag::Model)
    } else if a == "-i"@ || a == "--input"@ {
        Some(Flag::Input)
    } else if a == "-o"@ || a == "--output"@ {
        Some(Flag::Output)
    } else if a == "--device"@ {
        Some(Flag::Device)
    } else if a == "--tile"@ {
        Some(Flag::Tile)
    } else if a == "--tile-pad"@ {
        Some(Flag::TilePad)
    } else if a == "--outscale"@ {
        Some(Flag::Outscale)
    } else if a == "-q"@ || a == "--quiet"@ {
        Some(Flag::Quiet)
    } else if a == "--cuda-selftest"@ {
        Some(Flag::CudaSelftest)
    } else if a == "--self-test"@ {
        Some(Flag::SelfTest)
    } else if a == "--bench-conv"@ {
        Some(Flag::BenchConv)
    } else if a == "--bench-gemm"@ {
        Some(Flag::BenchGemm)
    } else if a == "-h"@ || a == "--help"@ {
        Some(Flag::Help)
    } else if a == "-V"@ || a == "--version"@ {
        Some(Flag::Version)
    } else {
        None
    }
}

/// The flag that an argument is.
pub fn flag(a: &str) -> (r: Option<Flag>)
    ensures
        r == flag_of(a@),
{
    if same_text(a, "-m") || same_text(a, "--model") {
        Some(Flag::Model)
    } else if same_text(a, "-i") || same_text(a, "--input") {
        Some(Flag::Input)
    } else if same_text(a, "-o") || same_text(a, "--output") {
        Some(Flag::Output)
    } else if same_text(a, "--device") {
        Some(Flag::Device)
    } else if same_text(a, "--tile") {
        Some(Flag::Tile)
    } else if same_text(a, "--tile-pad") {
        Some(Flag::TilePad)
    } else if same_text(a, "--outscale") {
        Some(Flag::Outscale)
    } else if same_text(a, "-q") || same_text(a, "--quiet") {
        Some(Flag::Quiet)
    } else if same_text(a, "--cuda-selftest") {
        Some(Flag::CudaSelftest)
    } else if same_text(a, "--self-test") {
        Some(Flag::SelfTest)
    } else if same_text(a, "--bench-conv") {
        Some(Flag::BenchConv)
    } else if same_text(a, "--bench-gemm") {
        Some(Flag::BenchGemm)
    } else if same_text(a, "-h") || same_text(a, "--help") {
        Some(Flag::Help)
    } else if same_text(a, "-V") || same_text(a, "--version") {
        Some(Flag::Version)
    } else {
        None
    }
}

/// Is the character a decimal digit?
pub open spec fn is_digit(c: char) -> bool {
    '0' <= c <= '9'
}

/// The number of a text of decimal digits.
pub open spec fn digits_value(s: Seq<char>) -> int
    decreases s.len(),
{
    if s.len() == 0 {
        0
    } else {
        10 * digits_value(s.drop_last()) + (s.last() as int - '0' as int)
    }
}

/// A text without the plus sign it may begin with.
pub open spec fn unsigned(s: Seq<char>) -> Seq<char> {
    if s.len() > 0 && s[0] == '+' {
        s.skip(1)
    } else {
        s
    }
}

/// The number of a text: decimal digits, behind a plus sign or not, of a number
/// that can be held.
pub open spec fn number_of(s: Seq<char>) -> Option<usize> {
    let d = unsigned(s);
    if d.len() > 0 && (forall|i: int| 0 <= i < d.len() ==> is_digit(#[trigger] d[i]))
        && digits_value(d) <= usize::MAX {
        Some(digits_value(d) as usize)
    } else {
        None
    }
}

/// More digits make no smaller number.
proof fn lemma_digits(s: Seq<char>, n: int)
    requires
        0 <= n <= s.len(),
        forall|i: int| 0 <= i < s.len() ==> is_digit(#[trigger] s[i]),
    ensures
        0 <= digits_value(s.take(n)) <= digits_value(s),
    decreases s.len(),
{
    if s.len() > 0 {
        let front = s.drop_last();
        if n < s.len() {
            lemma_digits(front, n);
            assert(front.take(n) =~= s.take(n));
        } else {
            lemma_digits(front, front.len() as int);
            assert(front.take(front.len() as int) =~= front);
            assert(s.take(n) =~= s);
        }
    } else {
        assert(s.take(n) =~= s);
    }
}

/// The number of a text.
pub fn number(s: &str) -> (r: Option<usize>)
    ensures
        r == number_of(s@),
{
    let n = s.unicode_len();
    let from: usize = if n > 0 && s.get_char(0) == '+' {
        1
    } else {
        0
    };
    let ghost d = unsigned(s@);
    if from == n {
        return None;
    }
    let mut v: usize = 0;
    let mut i: usize = from;
    assert(d.take(0).len() == 0);
    while i < n
        invariant
            n == s@.len(),
            from <= i <= n,
            d == s@.skip(from as int),
            d.len() == n - from,
            d.len() > 0,
            d == unsigned(s@),
            forall|j: int| 0 <= j < i - from ==> is_digit(#[trigger] d[j]),
            v == digits_value(d.take(i - from)),
        decreases n - i,
    {
        let c = s.get_char(i);
        let ghost k = i - from;
        assert(d[k] == c);
        let code = c as u32;
        if code < 48 || code > 57 {
            assert(!is_digit(d[k]));
            return None;
        }
        let digit = (code - 48) as usize;
        proof {
            assert(d.take(k + 1).drop_last() =~= d.take(k));
            assert(d.take(k + 1).last() == c);
        }
        let next = match v.checked_mul(10) {
            Some(t) => t.checked_add(digit),
            None => None,
        };
        match next {
            Some(t) => {
                v = t;
            },
            None => {
                proof {
                    if forall|j: int| 0 <= j < d.len() ==> is_digit(#[trigger] d[j]) {
                        lemma_digits(d, k + 1);
                    }
                }
                return None;
            },
        }
        i += 1;
    }
    assert(d.take(n - from) =~= d);
    Some(v)
}

/// What the user asked for.
pub struct Options {
    pub model: Option<String>,
    pub input: Option<String>,
    pub output: Option<String>,
    pub device: String,
    pub tile: usize,
    pub tile_pad: usize,
    /// The final scale, as it was written.
    pub outscale: Option<String>,
    pub quiet: bool,
    pub cuda_selftest: bool,
    pub self_test: bool,
    pub bench_conv: bool,
    pub bench_gemm: bool,
}

/// What [`Options`] hold.
pub struct Asked {
    pub model: Option<Seq<char>>,
    pub input: Option<Seq<char>>,
    pub output: Option<Seq<char>>,
    pub device: Seq<char>,
    pub tile: usize,
    pub tile_pad: usize,
    pub outscale: Option<Seq<char>>,
    pub quiet: bool,
    pub cuda_selftest: bool,
    pub self_test: bool,
    pub bench_conv: bool,
    pub bench_gemm: bool,
}

/// The text of an optional string.
pub open spec fn text_of(s: Option<String>) -> Option<Seq<char>> {
    match s {
        Some(t) => Some(t@),
        None => None,
    }
}

impl View for Options {
    type V = Asked;

    open spec fn view(&self) -> Asked {
        Asked {
            model: text_of(self.model),
            input: text_of(self.input),
            output: text_of(self.output),
            device: self.device@,
            tile: self.tile,
            tile_pad: self.tile_pad,
            outscale: text_of(self.outscale),
            quiet: self.quiet,
            cuda_selftest: self.cuda_selftest,
            self_test: self.self_test,
            bench_conv: self.bench_conv,
            bench_gemm: self.bench_gemm,
        }
    }
}

/// What is asked for where nothing is said: ten pixels of context around a tile,
/// and no tiles.
pub open spec fn defaults(device: Seq<char>) -> Asked {
    Asked {
        model: None,
        input: None,
        output: None,
        device,
        tile: 0,
        tile_pad: 10,
        outscale: None,
        quiet: false,
        cuda_selftest: false,
        self_test: false,
        bench_conv: false,
        bench_gemm: false,
    }
}

/// What a command line comes to.
pub enum Command {
    /// Do what was asked for.
    Run(Options),
    /// Explain the usage.
    Usage,
    /// Name the argument that is unknown, and explain the usage.
    Unknown(String),
    /// Print the version.
    Version,
}

/// What a [`Command`] says.
pub enum Reading {
    Run(Asked),
    Usage,
    Unknown(Seq<char>),
    Version,
}

impl View for Command {
    type V = Reading;

    open spec fn view(&self) -> Reading {
        match self {
            Command::Run(o) => Reading::Run(o@),
            Command::Usage => Reading::Usage,
            Command::Unknown(a) => Reading::Unknown(a@),
            Command::Version => Reading::Version,
        }
    }
}

/// The texts of the arguments.
pub open spec fn texts(args: Seq<String>) -> Seq<Seq<char>> {
    args.map_values(|a: String| a@)
}

/// Argument `i`, if there is one.
pub open spec fn nth(args: Seq<Seq<char>>, i: int) -> Option<Seq<char>> {
    if 0 <= i < args.len() {
        Some(args[i])
    } else {
        None
    }
}

/// The number in argument `i`, if there is one.
pub open spec fn nth_number(args: Seq<Seq<char>>, i: int) -> Option<usize> {
    match nth(args, i) {
        Some(t) => number_of(t),
        None => None,
    }
}

/// What the arguments from `i` on come to, where `o` was asked for before them. A
/// flag that takes a value takes the next argument, whatever it is; a device or a
/// number that is missing is an error, and another missing value counts as not
/// given.
pub open spec fn reading(args: Seq<Seq<char>>, i: int, o: Asked) -> Reading
    decreases args.len() - i + 1,
{
    if i < 0 || i >= args.len() {
        Reading::Run(o)
    } else {
        match flag_of(args[i]) {
            None => Reading::Unknown(args[i]),
            Some(Flag::Help) => Reading::Usage,
            Some(Flag::Version) => Reading::Version,
            Some(Flag::Model) => reading(args, i + 2, (Asked { model: nth(args, i + 1), ..o })),
            Some(Flag::Input) => reading(args, i + 2, (Asked { input: nth(args, i + 1), ..o })),
            Some(Flag::Output) => reading(args, i + 2, (Asked { output: nth(args, i + 1), ..o })),
            Some(Flag::Outscale) => reading(
                args,
                i + 2,
                (Asked { outscale: nth(args, i + 1), ..o }),
            ),
            Some(Flag::Device) => match nth(args, i + 1) {
                Some(d) => reading(args, i + 2, (Asked { device: d, ..o })),
                None => Reading::Usage,
            },
            Some(Flag::Tile) => match nth_number(args, i + 1) {
                Some(n) => reading(args, i + 2, (Asked { tile: n, ..o })),
                None => Reading::Usage,
            },
            Some(Flag::TilePad) => match nth_number(args, i + 1) {
                Some(n) => reading(args, i + 2, (Asked { tile_pad: n, ..o })),
                None => Reading::Usage,
            },
            Some(Flag::Quiet) => reading(args, i + 1, (Asked { quiet: true, ..o })),
            Some(Flag::CudaSelftest) => reading(
                args,
                i + 1,
                (Asked { cuda_selftest: true, ..o }),
            ),
            Some(Flag::SelfTest) => reading(args, i + 1, (Asked { self_test: true, ..o })),
            Some(Flag::BenchConv) => reading(args, i + 1, (Asked { bench_conv: true, ..o })),
            Some(Flag::BenchGemm) => reading(args, i + 1, (Asked { bench_gemm: true, ..o })),
        }
    }
}

/// Argument `i`, if there is one.
fn value(args: &Vec<String>, i: usize) -> (r: Option<String>)
    ensures
        text_of(r) == nth(texts(args@), i as int),
{
    if i < args.len() {
        Some(args[i].clone())
    } else {
        None
    }
}

/// The number in argument `i`, if there is one.
fn value_number(args: &Vec<String>, i: usize) -> (r: Option<usize>)
    ensures
        r == nth_number(texts(args@), i as int),
{
    if i < args.len() {
        number(args[i].as_str())
    } else {
        None
    }
}

/// Reads the command line. Without arguments the usage is explained.
pub fn parse(args: &Vec<String>, device: &str) -> (r: Command)
    requires
        args@.len() + 2 <= usize::MAX,
    ensures
        r@ == if args@.len() == 0 {
            Reading::Usage
        } else {
            reading(texts(args@), 0, defaults(device@))
        },
{
    if args.len() == 0 {
        return Command::Usage;
    }
    let mut o = Options {
        model: None,
        input: None,
        output: None,
        device: device.to_owned(),
        tile: 0,
        tile_pad: 10,
        outscale: None,
        quiet: false,
        cuda_selftest: false,
        self_test: false,
        bench_conv: false,
        bench_gemm: false,
    };
    let ghost all = texts(args@);
    let ghost whole = reading(all, 0, defaults(device@));
    let mut i: usize = 0;
    while i < args.len()
        invariant
            args@.len() + 2 <= usize::MAX,
            i <= args@.len() + 1,
            all == texts(args@),
            whole == reading(all, 0, defaults(device@)),
            reading(all, i as int, o@) == whole,
            args@.len() > 0,
        decreases args@.len() + 2 - i,
    {
        assert(all[i as int] == args@[i as int]@);
        match flag(args[i].as_str()) {
            None => {
                return Command::Unknown(args[i].clone());
            },
            Some(Flag::Help) => {
                return Command::Usage;
            },
            Some(Flag::Version) => {
                return Command::Version;
            },
            Some(Flag::Model) => {
                i += 1;
                o.model = value(args, i);
            },
            Some(Flag::Input) => {
                i += 1;
                o.input = value(args, i);
            },
            Some(Flag::Output) => {
                i += 1;
                o.output = value(args, i);
            },
            Some(Flag::Outscale) => {
                i += 1;
                o.outscale = value(args, i);
            },
            Some(Flag::Device) => {
                i += 1;
                match value(args, i) {
                    Some(d) => {
                        o.device = d;
                    },
                    None => {
                        return Command::Usage;
                    },
                }
            },
            Some(Flag::Tile) => {
                i += 1;
                match value_number(args, i) {
                    Some(n) => {
                        o.tile = n;
                    },
                    None => {
                        return Command::Usage;
                    },
                }
            },
            Some(Flag::TilePad) => {
                i += 1;
                match value_number(args, i) {
                    Some(n) => {
                        o.tile_pad = n;
                    },
                    None => {
                        return Command::Usage;
                    },
                }
            },
            Some(Flag::Quiet) => {
                o.quiet = true;
            },
            Some(Flag::CudaSelftest) => {
                o.cuda_selftest = true;
            },
            Some(Flag::SelfTest) => {
                o.self_test = true;
            },
            Some(Flag::BenchConv) => {
                o.bench_conv = true;
            },
            Some(Flag::BenchGemm) => {
                o.bench_gemm = true;
            },
        }
        i += 1;
    }
    Command::Run(o)
}

} // verus!
