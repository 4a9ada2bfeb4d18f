//! `uname`: prints a fixed, plausible identity of the machine.

use vstd::prelude::*;
use crate::command::{argparse, arg_views, parse_words, Arg, ArgView, CommandResult};
use crate::command::echo::{NEWLINE, SPACE};
use crate::connection::ConnectionState;
use crate::text::{append_bytes, append_text, is_text, join_bytes, join_with, text_bytes, views};
use vstd::string::StringSliceAdditionalSpecFns;

verus! {

pub const VERSION_STRING: &'static str = "uname (GNU coreutils) 8.32
Copyright (C) 2020 Free Software Foundation, Inc.
License GPLv3+: GNU GPL version 3 or later <https://gnu.org/licenses/gpl.html>.
This is free software: you are free to change and redistribute it.
There is NO WARRANTY, to the extent permitted by law.

Written by David MacKenzie.
";

pub const HELP_STRING: &'static str = "Usage: uname [OPTION]...
Print certain system information.  With no OPTION, same as -s.

  -a, --all                print all information, in the following order,
                             except omit -p and -i if unknown:
  -s, --kernel-name        print the kernel name
  -n, --nodename           print the network node hostname
  -r, --kernel-release     print the kernel release
  -v, --kernel-version     print the kernel version
  -m, --machine            print the machine hardware name
  -p, --processor          print the processor type (non-portable)
  -i, --hardware-platform  print the hardware platform (non-portable)
  -o, --operating-system   print the operating system
      --help     display this help and exit
      --version  output version information and exit

GNU coreutils online help: <https://www.gnu.org/software/coreutils/>
Report any translation bugs to <https://translationproject.org/team/>
Full documentation <https://www.gnu.org/software/coreutils/uname>
or available locally via: info '(coreutils) uname invocation'
";

pub const TRY_HELP: &'static str = "'\nTry 'uname --help' for more information.\n";

pub const EXTRA_OPERAND: &'static str = "uname: extra operand '";

pub const INVALID_OPTION: &'static str = "uname: invalid option -- '";

pub const UNRECOGNIZED_OPTION: &'static str = "uname: unrecognized option '--";

/// Which fields to print.
#[derive(Clone, Copy)]
pub struct ToPrint {
    pub kernel_name: bool,
    pub node_name: bool,
    pub kernel_release: bool,
    pub kernel_version: bool,
    pub machine: bool,
    pub processor: bool,
    pub platform: bool,
    pub operating_system: bool,
}

impl ToPrint {
    pub open spec fn none() -> ToPrint {
        ToPrint {
            kernel_name: false,
            node_name: false,
            kernel_release: false,
            kernel_version: false,
            machine: false,
            processor: false,
            platform: false,
            operating_system: false,
        }
    }

    pub open spec fn all() -> ToPrint {
        ToPrint {
            kernel_name: true,
            node_name: true,
            kernel_release: true,
            kernel_version: true,
            machine: true,
            processor: true,
            platform: true,
            operating_system: true,
        }
    }

    pub open spec fn is_empty(self) -> bool {
        self == ToPrint::none()
    }

    pub open spec fn union(self, o: ToPrint) -> ToPrint {
        ToPrint {
            kernel_name: self.kernel_name || o.kernel_name,
            node_name: self.node_name || o.node_name,
            kernel_release: self.kernel_release || o.kernel_release,
            kernel_version: self.kernel_version || o.kernel_version,
            machine: self.machine || o.machine,
            processor: self.processor || o.processor,
            platform: self.platform || o.platform,
            operating_system: self.operating_system || o.operating_system,
        }
    }
}

/// Where the scan of the arguments stands: the fields chosen so far (and
/// whether `-a` asked to leave out unknown ones), or the final output.
pub enum UnameScan {
    Fields(ToPrint, bool),
    Done(Seq<u8>, u32),
}

/// The field an option names, if any.
pub open spec fn field_option(a: ArgView) -> Option<ToPrint> {
    let n = ToPrint::none();
    match a {
        ArgView::Short(c) => if c == 115 {
            Some(ToPrint { kernel_name: true, ..n })
        } else if c == 110 {
            Some(ToPrint { node_name: true, ..n })
        } else if c == 114 {
            Some(ToPrint { kernel_release: true, ..n })
        } else if c == 118 {
            Some(ToPrint { kernel_version: true, ..n })
        } else if c == 109 {
            Some(ToPrint { machine: true, ..n })
        } else if c == 112 {
            Some(ToPrint { processor: true, ..n })
        } else if c == 105 {
            Some(ToPrint { platform: true, ..n })
        } else if c == 111 {
            Some(ToPrint { operating_system: true, ..n })
        } else {
            None
        },
        ArgView::Long(s) => if s == "kernel-name".spec_bytes() {
            Some(ToPrint { kernel_name: true, ..n })
        } else if s == "nodename".spec_bytes() {
            Some(ToPrint { node_name: true, ..n })
        } else if s == "kernel-release".spec_bytes() {
            Some(ToPrint { kernel_release: true, ..n })
        } else if s == "kernel-version".spec_bytes() {
            Some(ToPrint { kernel_version: true, ..n })
        } else if s == "machine".spec_bytes() {
            Some(ToPrint { machine: true, ..n })
        } else if s == "processor".spec_bytes() {
            Some(ToPrint { processor: true, ..n })
        } else if s == "hardware-platform".spec_bytes() {
            Some(ToPrint { platform: true, ..n })
        } else if s == "operating-system".spec_bytes() {
            Some(ToPrint { operating_system: true, ..n })
        } else {
            None
        },
        ArgView::Operand(_) => None,
    }
}

/// Whether an argument is `-a` or `--all`.
pub open spec fn is_all(a: ArgView) -> bool {
    match a {
        ArgView::Short(c) => c == 97,
        ArgView::Long(s) => s == "all".spec_bytes(),
        ArgView::Operand(_) => false,
    }
}

/// One argument of the scan.
pub open spec fn uname_step(st: UnameScan, a: ArgView) -> UnameScan {
    match st {
        UnameScan::Done(o, c) => UnameScan::Done(o, c),
        UnameScan::Fields(tp, filter) => if is_all(a) {
            UnameScan::Fields(tp.union(ToPrint::all()), true)
        } else if let Some(f) = field_option(a) {
            UnameScan::Fields(tp.union(f), filter)
        } else {
            match a {
                ArgView::Long(s) => if s == "help".spec_bytes() {
                    UnameScan::Done(HELP_STRING.spec_bytes(), 0)
                } else if s == "version".spec_bytes() {
                    UnameScan::Done(VERSION_STRING.spec_bytes(), 0)
                } else {
                    UnameScan::Done(
                        UNRECOGNIZED_OPTION.spec_bytes() + s + TRY_HELP.spec_bytes(),
                        1,
                    )
                },
                ArgView::Operand(o) => UnameScan::Done(
                    EXTRA_OPERAND.spec_bytes() + o + TRY_HELP.spec_bytes(),
                    1,
                ),
                ArgView::Short(c) => UnameScan::Done(
                    INVALID_OPTION.spec_bytes() + seq![c] + TRY_HELP.spec_bytes(),
                    1,
                ),
            }
        },
    }
}

/// The scan over all arguments, left to right.
pub open spec fn uname_scan(args: Seq<ArgView>) -> UnameScan
    decreases args.len(),
{
    if args.len() == 0 {
        UnameScan::Fields(ToPrint::none(), false)
    } else {
        uname_step(uname_scan(args.drop_last()), args.last())
    }
}

/// The fields printed, in order; `filter` leaves out processor and platform.
pub open spec fn uname_fields(tp: ToPrint, filter: bool) -> Seq<Seq<u8>> {
    let s0 = Seq::<Seq<u8>>::empty();
    let s1 = if tp.kernel_name { s0.push("Linux".spec_bytes()) } else { s0 };
    let s2 = if tp.node_name { s1.push("cd5079c0d642".spec_bytes()) } else { s1 };
    let s3 = if tp.kernel_release { s2.push("5.15.49".spec_bytes()) } else { s2 };
    let s4 = if tp.kernel_version {
        s3.push("#1 SMP PREEMPT Tue Sep 13 07:51:32 UTC 2022".spec_bytes())
    } else {
        s3
    };
    let s5 = if tp.machine { s4.push("x86_64".spec_bytes()) } else { s4 };
    let s6 = if tp.processor && !filter { s5.push("unknown".spec_bytes()) } else { s5 };
    let s7 = if tp.platform && !filter { s6.push("unknown".spec_bytes()) } else { s6 };
    if tp.operating_system { s7.push("GNU/Linux".spec_bytes()) } else { s7 }
}

/// What `uname` prints for these arguments, and its exit status.
pub open spec fn uname_output(args: Seq<ArgView>) -> (Seq<u8>, u32) {
    match uname_scan(args) {
        UnameScan::Done(o, c) => (o, c),
        UnameScan::Fields(tp, filter) => {
            let tp2 = if tp.is_empty() { ToPrint { kernel_name: true, ..tp } } else { tp };
            (join_with(uname_fields(tp2, filter), seq![SPACE]).push(NEWLINE), 0)
        },
    }
}

/// One argument of the scan: updates the chosen fields, or gives the final
/// output.
fn scan_arg(a: &Arg, tp: &mut ToPrint, filter: &mut bool) -> (r: Option<(Vec<u8>, u32)>)
    ensures
        uname_step(UnameScan::Fields(*old(tp), *old(filter)), a@) == match r {
            None => UnameScan::Fields(*final(tp), *final(filter)),
            Some(o) => UnameScan::Done(o.0@, o.1),
        },
{
    match a {
        Arg::Short(c) => {
            let c = *c;
            if c == 97 {
                set_all(tp, filter);
            } else if c == 115 {
                tp.kernel_name = true;
            } else if c == 110 {
                tp.node_name = true;
            } else if c == 114 {
                tp.kernel_release = true;
            } else if c == 118 {
                tp.kernel_version = true;
            } else if c == 109 {
                tp.machine = true;
            } else if c == 112 {
                tp.processor = true;
            } else if c == 105 {
                tp.platform = true;
            } else if c == 111 {
                tp.operating_system = true;
            } else {
                let mut out: Vec<u8> = Vec::new();
                append_text(&mut out, INVALID_OPTION);
                out.push(c);
                append_text(&mut out, TRY_HELP);
                assert(out@ =~= INVALID_OPTION.spec_bytes() + seq![c] + TRY_HELP.spec_bytes());
                return Some((out, 1));
            }
            None
        },
        Arg::Long(s) => scan_long(s.as_slice(), tp, filter),
        Arg::Operand(o) => {
            let mut out: Vec<u8> = Vec::new();
            append_text(&mut out, EXTRA_OPERAND);
            append_bytes(&mut out, o.as_slice());
            append_text(&mut out, TRY_HELP);
            Some((out, 1))
        },
    }
}

fn set_all(tp: &mut ToPrint, filter: &mut bool)
    ensures
        *final(tp) == old(tp).union(ToPrint::all()),
        *final(filter),
{
    *tp = ToPrint {
        kernel_name: true,
        node_name: true,
        kernel_release: true,
        kernel_version: true,
        machine: true,
        processor: true,
        platform: true,
        operating_system: true,
    };
    *filter = true;
}

/// A long option of the scan.
fn scan_long(s: &[u8], tp: &mut ToPrint, filter: &mut bool) -> (r: Option<(Vec<u8>, u32)>)
    ensures
        uname_step(UnameScan::Fields(*old(tp), *old(filter)), ArgView::Long(s@)) == match r {
            None => UnameScan::Fields(*final(tp), *final(filter)),
            Some(o) => UnameScan::Done(o.0@, o.1),
        },
{
    if is_text(s, "all") {
        set_all(tp, filter);
    } else if is_text(s, "kernel-name") {
        tp.kernel_name = true;
    } else if is_text(s, "nodename") {
        tp.node_name = true;
    } else if is_text(s, "kernel-release") {
        tp.kernel_release = true;
    } else if is_text(s, "kernel-version") {
        tp.kernel_version = true;
    } else if is_text(s, "machine") {
        tp.machine = true;
    } else if is_text(s, "processor") {
        tp.processor = true;
    } else if is_text(s, "hardware-platform") {
        tp.platform = true;
    } else if is_text(s, "operating-system") {
        tp.operating_system = true;
    } else if is_text(s, "help") {
        return Some((text_bytes(HELP_STRING), 0));
    } else if is_text(s, "version") {
        return Some((text_bytes(VERSION_STRING), 0));
    } else {
        let mut out: Vec<u8> = Vec::new();
        append_text(&mut out, UNRECOGNIZED_OPTION);
        append_bytes(&mut out, s);
        append_text(&mut out, TRY_HELP);
        return Some((out, 1));
    }
    None
}

fn add_field(fields: &mut Vec<Vec<u8>>, on: bool, w: &str)
    ensures
        views(final(fields)@) == if on {
            views(old(fields)@).push(w.spec_bytes())
        } else {
            views(old(fields)@)
        },
{
    if on {
        let ghost before = views(fields@);
        fields.push(text_bytes(w));
        assert(views(fields@) =~= before.push(w.spec_bytes()));
    }
}

/// The chosen fields, separated by spaces, and a line feed.
fn fields_text(tp: ToPrint, filter: bool) -> (r: Vec<u8>)
    ensures
        r@ == join_with(uname_fields(tp, filter), seq![SPACE]).push(NEWLINE),
{
    let mut fields: Vec<Vec<u8>> = Vec::new();
    assert(views(fields@) =~= Seq::<Seq<u8>>::empty());
    add_field(&mut fields, tp.kernel_name, "Linux");
    add_field(&mut fields, tp.node_name, "cd5079c0d642");
    add_field(&mut fields, tp.kernel_release, "5.15.49");
    add_field(&mut fields, tp.kernel_version, "#1 SMP PREEMPT Tue Sep 13 07:51:32 UTC 2022");
    add_field(&mut fields, tp.machine, "x86_64");
    add_field(&mut fields, tp.processor && !filter, "unknown");
    add_field(&mut fields, tp.platform && !filter, "unknown");
    add_field(&mut fields, tp.operating_system, "GNU/Linux");
    assert(views(fields@) =~= uname_fields(tp, filter));
    let mut sep: Vec<u8> = Vec::new();
    sep.push(SPACE);
    assert(sep@ =~= seq![SPACE]);
    let mut out = join_bytes(fields.as_slice(), sep.as_slice());
    out.push(NEWLINE);
    out
}

/// Prints the fields chosen by `params`, or help, version or an error.
pub fn execute(params: &[Vec<u8>]) -> (r: (Vec<u8>, u32))
    ensures
        (r.0@, r.1) == uname_output(parse_words(views(params@))),
{
    let args = argparse(params);
    let ghost av = arg_views(args@);
    let mut tp = ToPrint {
        kernel_name: false,
        node_name: false,
        kernel_release: false,
        kernel_version: false,
        machine: false,
        processor: false,
        platform: false,
        operating_system: false,
    };
    let mut filter = false;
    let mut i: usize = 0;
    assert(av.take(0) =~= Seq::<ArgView>::empty());
    while i < args.len()
        invariant
            av == arg_views(args@),
            av == parse_words(views(params@)),
            0 <= i <= args@.len(),
            uname_scan(av.take(i as int)) == UnameScan::Fields(tp, filter),
        decreases args@.len() - i,
    {
        assert(av.take(i + 1).drop_last() =~= av.take(i as int));
        assert(av.take(i + 1).last() == args@[i as int]@);
        match scan_arg(&args[i], &mut tp, &mut filter) {
            Some(done) => {
                proof {
                    lemma_scan_done(av, (i + 1) as nat);
                }
                return done;
            },
            None => {},
        }
        i = i + 1;
    }
    assert(av.take(args@.len() as int) =~= av);
    if !(tp.kernel_name || tp.node_name || tp.kernel_release || tp.kernel_version || tp.machine
        || tp.processor || tp.platform || tp.operating_system) {
        tp.kernel_name = true;
    }
    (fields_text(tp, filter), 0)
}

/// Once the scan is done, later arguments change nothing.
proof fn lemma_scan_done(av: Seq<ArgView>, k: nat)
    requires
        k <= av.len(),
        uname_scan(av.take(k as int)) is Done,
    ensures
        uname_scan(av) == uname_scan(av.take(k as int)),
    decreases av.len() - k,
{
    if k < av.len() {
        assert(av.take(k + 1 as int).drop_last() =~= av.take(k as int));
        lemma_scan_done(av, (k + 1) as nat);
    } else {
        assert(av.take(k as int) =~= av);
    }
}

#[derive(Debug)]
pub struct Uname {}

impl Uname {
    /// Prints what `execute` gives, and exits with its status.
    pub fn new(
        _connection: &mut ConnectionState,
        params: &[Vec<u8>],
        _redirected: bool,
        out: &mut Vec<u8>,
    ) -> (r: CommandResult<Self>)
        ensures
            *final(_connection) == *old(_connection),
            r == CommandResult::<Self>::Exit(uname_output(parse_words(views(params@))).1),
            final(out)@ == old(out)@ + uname_output(parse_words(views(params@))).0,
    {
        let (text, code) = execute(params);
        append_bytes(out, text.as_slice());
        CommandResult::Exit(code)
    }

    pub fn stdin(
        self,
        _connection: &mut ConnectionState,
        _data: &[u8],
        _out: &mut Vec<u8>,
    ) -> (r: CommandResult<Self>)
        ensures
            *final(_connection) == *old(_connection),
            r == CommandResult::<Self>::Exit(0),
            final(_out)@ == old(_out)@,
    {
        CommandResult::Exit(0)
    }
}

} // verus!
