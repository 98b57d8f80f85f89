//! `cat`: option parsing and the line-numbering / visible-character
//! rendering of the bytes it copies.
use vstd::prelude::*;
use crate::builtins::opts::{
    arg_is_dashdash, arg_is_long, arg_is_short, exit_model, exit_with_help, fail_with_help,
    is_dashdash, is_long, is_short, long_parts, msg_unrecognized, no_value_exit, no_value_text,
    split_long_option, unrecognized_text, ArgExit, ExitModel,
};
use crate::text::{chars_of, owned, push_char, str_eq, views, nat_text, u64_text};

verus! {

/// Which lines get numbers.
#[derive(Clone, Copy, Debug, PartialEq, Eq, Structural)]
pub enum NumberMode {
    Off,
    NonBlank,
    All,
}

/// The options of `cat`.
#[derive(Clone, Copy, Debug, PartialEq, Eq)]
pub struct CatOptions {
    pub number: NumberMode,
    pub squeeze_blank: bool,
    pub show_ends: bool,
    pub show_tabs: bool,
    pub show_nonprinting: bool,
}

/// No option given.
pub open spec fn cat_defaults() -> CatOptions {
    CatOptions {
        number: NumberMode::Off,
        squeeze_blank: false,
        show_ends: false,
        show_tabs: false,
        show_nonprinting: false,
    }
}

impl Default for CatOptions {
    fn default() -> (r: Self)
        ensures
            r == cat_defaults(),
    {
        CatOptions {
            number: NumberMode::Off,
            squeeze_blank: false,
            show_ends: false,
            show_tabs: false,
            show_nonprinting: false,
        }
    }
}

impl CatOptions {
    /// No option changes the bytes, so input can be copied as is.
    pub open spec fn copies_verbatim(self) -> bool {
        self.number == NumberMode::Off && !self.squeeze_blank && !self.show_ends && !self.show_tabs
            && !self.show_nonprinting
    }

    /// Whether the bytes can be copied unchanged.
    pub fn can_copy_fast(self) -> (r: bool)
        ensures
            r == self.copies_verbatim(),
    {
        self.number == NumberMode::Off && !self.squeeze_blank && !self.show_ends && !self.show_tabs
            && !self.show_nonprinting
    }
}

/// The effect of one short option letter, or `None` for an unknown letter.
pub open spec fn cat_short(c: char, o: CatOptions) -> Option<CatOptions> {
    if c == 'A' {
        Some(CatOptions { show_nonprinting: true, show_ends: true, show_tabs: true, ..o })
    } else if c == 'b' {
        Some(CatOptions { number: NumberMode::NonBlank, ..o })
    } else if c == 'e' {
        Some(CatOptions { show_nonprinting: true, show_ends: true, ..o })
    } else if c == 'E' {
        Some(CatOptions { show_ends: true, ..o })
    } else if c == 'n' {
        if o.number != NumberMode::NonBlank {
            Some(CatOptions { number: NumberMode::All, ..o })
        } else {
            Some(o)
        }
    } else if c == 's' {
        Some(CatOptions { squeeze_blank: true, ..o })
    } else if c == 't' {
        Some(CatOptions { show_nonprinting: true, show_tabs: true, ..o })
    } else if c == 'T' {
        Some(CatOptions { show_tabs: true, ..o })
    } else if c == 'u' {
        Some(o)
    } else if c == 'v' {
        Some(CatOptions { show_nonprinting: true, ..o })
    } else {
        None
    }
}

/// Applies one short option letter; `false` for an unknown letter.
pub fn apply_cat_short_option(option: char, options: &mut CatOptions) -> (r: bool)
    ensures
        match cat_short(option, *old(options)) {
            Some(o) => r && *final(options) == o,
            None => !r && *final(options) == *old(options),
        },
{
    if option == 'A' {
        options.show_nonprinting = true;
        options.show_ends = true;
        options.show_tabs = true;
    } else if option == 'b' {
        options.number = NumberMode::NonBlank;
    } else if option == 'e' {
        options.show_nonprinting = true;
        options.show_ends = true;
    } else if option == 'E' {
        options.show_ends = true;
    } else if option == 'n' {
        if options.number != NumberMode::NonBlank {
            options.number = NumberMode::All;
        }
    } else if option == 's' {
        options.squeeze_blank = true;
    } else if option == 't' {
        options.show_nonprinting = true;
        options.show_tabs = true;
    } else if option == 'T' {
        options.show_tabs = true;
    } else if option == 'u' {
    } else if option == 'v' {
        options.show_nonprinting = true;
    } else {
        return false;
    }
    true
}

/// The error for an unknown short letter.
pub open spec fn cat_bad_short(c: char) -> ExitModel {
    fail_with_help(1, "cat"@, "cat: unrecognized option '-"@ + seq![c] + "'"@)
}

/// The letters `s[i..]` of a short option group applied to `o`.
pub open spec fn cat_shorts(s: Seq<char>, i: int, o: CatOptions) -> Result<CatOptions, ExitModel>
    decreases s.len() - i,
{
    if i < 0 || i >= s.len() {
        Ok(o)
    } else if s[i] == 'h' {
        Err(ExitModel::Help)
    } else if s[i] == 'V' {
        Err(ExitModel::Version)
    } else {
        match cat_short(s[i], o) {
            Some(o2) => cat_shorts(s, i + 1, o2),
            None => Err(cat_bad_short(s[i])),
        }
    }
}

/// The letter a long option stands for.
pub open spec fn cat_long_letter(name: Seq<char>) -> Option<char> {
    if name == "show-all"@ {
        Some('A')
    } else if name == "number-nonblank"@ {
        Some('b')
    } else if name == "show-ends"@ {
        Some('E')
    } else if name == "number"@ {
        Some('n')
    } else if name == "squeeze-blank"@ {
        Some('s')
    } else if name == "show-tabs"@ {
        Some('T')
    } else if name == "show-nonprinting"@ {
        Some('v')
    } else {
        None
    }
}

/// A `--long` option applied to `o`.
pub open spec fn cat_long(arg: Seq<char>, o: CatOptions) -> Result<CatOptions, ExitModel> {
    if arg == "--help"@ {
        Err(ExitModel::Help)
    } else if arg == "--version"@ {
        Err(ExitModel::Version)
    } else if long_parts(arg).1 is Some {
        Err(no_value_exit(1, "cat"@, arg))
    } else {
        match cat_long_letter(long_parts(arg).0) {
            Some(c) => match cat_short(c, o) {
                Some(o2) => Ok(o2),
                None => Ok(o),
            },
            None => Err(fail_with_help(1, "cat"@, msg_unrecognized("cat"@, arg))),
        }
    }
}

/// The arguments `args[i..]` parsed on top of `o` and `operands`;
/// `opts` tells whether options are still recognized (no `--` seen yet).
pub open spec fn cat_args(
    args: Seq<Seq<char>>,
    i: int,
    opts: bool,
    o: CatOptions,
    operands: Seq<Seq<char>>,
) -> Result<(CatOptions, Seq<Seq<char>>), ExitModel>
    decreases args.len() - i,
{
    if i < 0 || i >= args.len() {
        Ok((o, operands))
    } else {
        let a = args[i];
        if opts && is_dashdash(a) {
            cat_args(args, i + 1, false, o, operands)
        } else if opts && is_long(a) {
            match cat_long(a, o) {
                Ok(o2) => cat_args(args, i + 1, opts, o2, operands),
                Err(e) => Err(e),
            }
        } else if opts && is_short(a) {
            match cat_shorts(a, 1, o) {
                Ok(o2) => cat_args(args, i + 1, opts, o2, operands),
                Err(e) => Err(e),
            }
        } else {
            cat_args(args, i + 1, opts, o, operands.push(a))
        }
    }
}

/// Applies a `--long` option.
pub fn parse_cat_long_option(arg: &str, options: &mut CatOptions) -> (r: Result<(), ArgExit>)
    ensures
        match cat_long(arg@, *old(options)) {
            Ok(o) => r is Ok && *final(options) == o,
            Err(e) => r is Err && exit_model(r->Err_0) == e,
        },
{
    if str_eq(arg, "--help") {
        return Err(ArgExit::Help);
    }
    if str_eq(arg, "--version") {
        return Err(ArgExit::Version);
    }
    let (name, value) = split_long_option(arg);
    if value.is_some() {
        return Err(exit_with_help(1, "cat", no_value_text("cat", arg)));
    }
    let n = name.as_str();
    let short = if str_eq(n, "show-all") {
        'A'
    } else if str_eq(n, "number-nonblank") {
        'b'
    } else if str_eq(n, "show-ends") {
        'E'
    } else if str_eq(n, "number") {
        'n'
    } else if str_eq(n, "squeeze-blank") {
        's'
    } else if str_eq(n, "show-tabs") {
        'T'
    } else if str_eq(n, "show-nonprinting") {
        'v'
    } else {
        return Err(exit_with_help(1, "cat", unrecognized_text("cat", arg)));
    };
    let _ = apply_cat_short_option(short, options);
    Ok(())
}

/// Applies a group of short option letters such as `-benst`.
pub fn parse_cat_short_options(arg: &str, options: &mut CatOptions) -> (r: Result<(), ArgExit>)
    ensures
        match cat_shorts(arg@, 1, *old(options)) {
            Ok(o) => r is Ok && *final(options) == o,
            Err(e) => r is Err && exit_model(r->Err_0) == e,
        },
{
    let v = chars_of(arg);
    let mut i: usize = 1;
    if v.len() < 1 {
        return Ok(());
    }
    while i < v.len()
        invariant
            1 <= i <= v@.len(),
            v@ == arg@,
            cat_shorts(arg@, 1, *old(options)) == cat_shorts(arg@, i as int, *options),
        decreases v.len() - i,
    {
        let option = v[i];
        if option == 'h' {
            return Err(ArgExit::Help);
        }
        if option == 'V' {
            return Err(ArgExit::Version);
        }
        if !apply_cat_short_option(option, options) {
            let mut m = owned("cat: unrecognized option '-");
            push_char(&mut m, option);
            let m2 = m.concat("'");
            assert(m2@ =~= "cat: unrecognized option '-"@ + seq![option] + "'"@);
            return Err(exit_with_help(1, "cat", m2));
        }
        i = i + 1;
    }
    Ok(())
}

/// Parses the arguments of `cat` into options and operands.
pub fn parse_cat_args(args: &[String]) -> (r: Result<(CatOptions, Vec<String>), ArgExit>)
    ensures
        match cat_args(views(args@), 0, true, cat_defaults(), Seq::empty()) {
            Ok((o, ops)) => r is Ok && r->Ok_0.0 == o && views(r->Ok_0.1@) == ops,
            Err(e) => r is Err && exit_model(r->Err_0) == e,
        },
{
    let mut options = CatOptions::default();
    let mut operands: Vec<String> = Vec::new();
    let mut parse_options = true;
    let ghost all = views(args@);
    let mut i: usize = 0;
    assert(views(operands@) =~= Seq::<Seq<char>>::empty());
    while i < args.len()
        invariant
            i <= args@.len(),
            all == views(args@),
            cat_args(all, 0, true, cat_defaults(), Seq::empty()) == cat_args(
                all,
                i as int,
                parse_options,
                options,
                views(operands@),
            ),
        decreases args.len() - i,
    {
        let arg = args[i].as_str();
        assert(all[i as int] == arg@);
        if parse_options && arg_is_dashdash(arg) {
            parse_options = false;
            i = i + 1;
            continue;
        }
        if parse_options && arg_is_long(arg) {
            parse_cat_long_option(arg, &mut options)?;
            i = i + 1;
            continue;
        }
        if parse_options && arg_is_short(arg) {
            parse_cat_short_options(arg, &mut options)?;
            i = i + 1;
            continue;
        }
        let ghost before = views(operands@);
        operands.push(args[i].clone());
        assert(views(operands@) =~= before.push(arg@));
        i = i + 1;
    }
    Ok((options, operands))
}

/// The line state carried from one byte to the next.
#[derive(Clone, Copy, Debug, PartialEq, Eq)]
pub struct CatState {
    pub line_number: usize,
    pub at_line_start: bool,
    pub kept_blank_line: bool,
}

impl Default for CatState {
    fn default() -> (r: Self)
        ensures
            r.line_number == 1 && r.at_line_start && !r.kept_blank_line,
    {
        CatState { line_number: 1, at_line_start: true, kept_blank_line: false }
    }
}

/// ASCII bytes of an ASCII text.
pub open spec fn ascii_bytes(s: Seq<char>) -> Seq<u8> {
    s.map_values(|c: char| c as u8)
}

/// The line number as `{:>6}\t`: right-aligned in six columns, then a tab.
pub open spec fn number_prefix(n: nat) -> Seq<u8> {
    let d = ascii_bytes(nat_text(n));
    let pad = if d.len() < 6 {
        6 - d.len()
    } else {
        0
    };
    Seq::new(pad as nat, |i: int| 32u8) + d + seq![9u8]
}

/// How a byte other than a newline is shown.
pub open spec fn visible_byte(b: u8, o: CatOptions) -> Seq<u8> {
    if b == 9 {
        if o.show_tabs {
            seq![94u8, 73u8]
        } else {
            seq![b]
        }
    } else if !o.show_nonprinting {
        seq![b]
    } else if b <= 31 {
        seq![94u8, (b + 64) as u8]
    } else if b == 127 {
        seq![94u8, 63u8]
    } else if 128 <= b <= 159 {
        seq![77u8, 45u8, 94u8, (b - 64) as u8]
    } else if 160 <= b <= 254 {
        seq![77u8, 45u8, (b - 128) as u8]
    } else if b == 255 {
        seq![77u8, 45u8, 94u8, 63u8]
    } else {
        seq![b]
    }
}

/// What one input byte produces, and the state after it.
pub open spec fn cat_step(b: u8, o: CatOptions, st: CatState) -> (Seq<u8>, CatState) {
    let blank = st.at_line_start && b == 10;
    if blank && o.squeeze_blank && st.kept_blank_line {
        (Seq::empty(), st)
    } else {
        let kept = if b != 10 {
            false
        } else {
            st.kept_blank_line
        };
        let numbered = st.at_line_start && (o.number == NumberMode::All || (o.number
            == NumberMode::NonBlank && !blank));
        let num = if numbered {
            number_prefix(st.line_number as nat)
        } else {
            Seq::empty()
        };
        let ln = if numbered {
            (st.line_number + 1) as usize
        } else {
            st.line_number
        };
        if b == 10 {
            let ends = if o.show_ends {
                seq![36u8]
            } else {
                Seq::<u8>::empty()
            };
            (
                num + ends + seq![10u8],
                CatState {
                    line_number: ln,
                    at_line_start: true,
                    kept_blank_line: if blank {
                        true
                    } else {
                        kept
                    },
                },
            )
        } else {
            (
                num + visible_byte(b, o),
                CatState { line_number: ln, at_line_start: false, kept_blank_line: kept },
            )
        }
    }
}

/// What a run of bytes produces from state `st`, and the state after it.
pub open spec fn cat_run(bytes: Seq<u8>, o: CatOptions, st: CatState) -> (Seq<u8>, CatState)
    decreases bytes.len(),
{
    if bytes.len() == 0 {
        (Seq::empty(), st)
    } else {
        let prev = cat_run(bytes.drop_last(), o, st);
        let step = cat_step(bytes.last(), o, prev.1);
        (prev.0 + step.0, step.1)
    }
}

/// The line number never grows by more than the number of bytes seen.
proof fn lemma_cat_run_line_bound(bytes: Seq<u8>, o: CatOptions, st: CatState)
    ensures
        cat_run(bytes, o, st).1.line_number <= st.line_number + bytes.len(),
    decreases bytes.len(),
{
    if bytes.len() > 0 {
        lemma_cat_run_line_bound(bytes.drop_last(), o, st);
    }
}

/// The bytes of `{:>6}\t` for a line number.
pub fn number_prefix_bytes(n: usize) -> (r: Vec<u8>)
    ensures
        r@ == number_prefix(n as nat),
{
    let digits = u64_text(n as u64);
    let dv = chars_of(digits.as_str());
    let mut r: Vec<u8> = Vec::new();
    let mut k: usize = dv.len();
    proof {
        lemma_nat_text_digits(n as nat);
    }
    while k < 6
        invariant
            dv@ == nat_text(n as nat),
            dv@.len() <= k <= 6 || (k == dv@.len() && k >= 6),
            r@ == Seq::new((k - dv@.len()) as nat, |i: int| 32u8),
        decreases 6 - k,
    {
        r.push(32u8);
        k = k + 1;
        assert(r@ =~= Seq::new((k - dv@.len()) as nat, |i: int| 32u8));
    }
    let ghost pad = r@;
    let mut i: usize = 0;
    while i < dv.len()
        invariant
            i <= dv@.len(),
            dv@ == nat_text(n as nat),
            forall|j: int| 0 <= j < dv@.len() ==> '0' <= #[trigger] dv@[j] <= '9',
            r@ == pad + ascii_bytes(dv@.subrange(0, i as int)),
        decreases dv.len() - i,
    {
        let c = dv[i];
        r.push(c as u8);
        assert(ascii_bytes(dv@.subrange(0, i + 1)) =~= ascii_bytes(dv@.subrange(0, i as int)).push(
            c as u8,
        ));
        i = i + 1;
    }
    assert(dv@.subrange(0, dv@.len() as int) =~= dv@);
    r.push(9u8);
    assert(r@ =~= number_prefix(n as nat));
    r
}

/// Decimal text holds only ASCII digits.
proof fn lemma_nat_text_digits(n: nat)
    ensures
        forall|j: int| 0 <= j < nat_text(n).len() ==> '0' <= #[trigger] nat_text(n)[j] <= '9',
    decreases n,
{
    crate::text::lemma_digit_char_range((n % 10) as int);
    if n >= 10 {
        lemma_nat_text_digits(n / 10);
        assert forall|j: int| 0 <= j < nat_text(n).len() implies '0' <= #[trigger] nat_text(n)[j] <= '9' by {
            if j < nat_text(n / 10).len() {
                assert(nat_text(n)[j] == nat_text(n / 10)[j]);
            }
        }
    }
}

/// Appends the visible form of a non-newline byte.
fn push_visible(out: &mut Vec<u8>, b: u8, o: CatOptions)
    ensures
        final(out)@ == old(out)@ + visible_byte(b, o),
{
    let ghost before = out@;
    if b == 9 {
        if o.show_tabs {
            out.push(94u8);
            out.push(73u8);
        } else {
            out.push(b);
        }
    } else if !o.show_nonprinting {
        out.push(b);
    } else if b <= 31 {
        out.push(94u8);
        out.push(b + 64);
    } else if b == 127 {
        out.push(94u8);
        out.push(63u8);
    } else if 128 <= b && b <= 159 {
        out.push(77u8);
        out.push(45u8);
        out.push(94u8);
        out.push(b - 64);
    } else if 160 <= b && b <= 254 {
        out.push(77u8);
        out.push(45u8);
        out.push(b - 128);
    } else if b == 255 {
        out.push(77u8);
        out.push(45u8);
        out.push(94u8);
        out.push(63u8);
    } else {
        out.push(b);
    }
    assert(out@ =~= before + visible_byte(b, o));
}

/// Renders bytes as `cat` prints them with the given options, updating the
/// line state that carries over to the next file.
#[verifier::spinoff_prover]
#[verifier::rlimit(40)]
pub fn cat_transform(input: &[u8], options: CatOptions, state: &mut CatState) -> (out: Vec<u8>)
    requires
        old(state).line_number + input@.len() <= usize::MAX,
    ensures
        options.copies_verbatim() ==> out@ == input@ && *final(state) == *old(state),
        !options.copies_verbatim() ==> (out@, *final(state)) == cat_run(input@, options, *old(state)),
{
    let mut out: Vec<u8> = Vec::new();
    if options.can_copy_fast() {
        let mut k: usize = 0;
        while k < input.len()
            invariant
                k <= input@.len(),
                out@ == input@.subrange(0, k as int),
            decreases input.len() - k,
        {
            out.push(input[k]);
            k = k + 1;
        }
        assert(input@.subrange(0, input@.len() as int) =~= input@);
        return out;
    }
    let ghost st0 = *state;
    let mut i: usize = 0;
    assert(input@.subrange(0, 0) =~= Seq::<u8>::empty());
    while i < input.len()
        invariant
            i <= input@.len(),
            st0.line_number + input@.len() <= usize::MAX,
            (out@, *state) == cat_run(input@.subrange(0, i as int), options, st0),
        decreases input.len() - i,
    {
        let b = input[i];
        let ghost prefix = input@.subrange(0, i + 1);
        assert(prefix.drop_last() =~= input@.subrange(0, i as int));
        assert(prefix.last() == b);
        proof {
            lemma_cat_run_line_bound(input@.subrange(0, i as int), options, st0);
        }
        let ghost before = out@;
        let ghost sb = *state;
        let blank = state.at_line_start && b == 10;
        if blank && options.squeeze_blank && state.kept_blank_line {
            i = i + 1;
            assert(out@ =~= before + cat_step(b, options, sb).0);
            continue;
        }
        if b != 10 {
            state.kept_blank_line = false;
        }
        if state.at_line_start {
            let should_number = options.number == NumberMode::All || (options.number
                == NumberMode::NonBlank && !blank);
            if should_number {
                let p = number_prefix_bytes(state.line_number);
                let mut q: usize = 0;
                let ghost base = out@;
                while q < p.len()
                    invariant
                        q <= p@.len(),
                        out@ == base + p@.subrange(0, q as int),
                    decreases p.len() - q,
                {
                    out.push(p[q]);
                    q = q + 1;
                }
                assert(p@.subrange(0, p@.len() as int) =~= p@);
                state.line_number = state.line_number + 1;
            }
        }
        if b == 10 {
            if blank {
                state.kept_blank_line = true;
            }
            if options.show_ends {
                out.push(36u8);
            }
            out.push(10u8);
            state.at_line_start = true;
            i = i + 1;
            assert(out@ =~= before + cat_step(b, options, sb).0);
            continue;
        }
        state.at_line_start = false;
        push_visible(&mut out, b, options);
        i = i + 1;
        assert(out@ =~= before + cat_step(b, options, sb).0);
    }
    assert(input@.subrange(0, input@.len() as int) =~= input@);
    out
}

} // verus!
