//! The options given with `-o`.

use crate::sys::S_IFMT;
use crate::text::{
    all_digits, chars_of, decimal, digit_value, digits_value, find_from, first_at,
    law_numbers_are_read, number_in, occurs, occurs_at, parse_number, same_text, text_between,
    texts,
};
use crate::time::Span;
use vstd::prelude::*;
use vstd::string::*;

verus! {

/// The high-level options of libfuse, which a low-level binding does not
/// implement.
///
/// The filesystem has to honor them itself. They must also be consumed before
/// mounting: `fusermount3` rejects every option it does not recognise, so a
/// stray `-o direct_io` fails the whole mount.
#[derive(Debug, Clone, PartialEq)]
pub struct FsOptions {
    pub entry_timeout: Span,
    pub attr_timeout: Span,
    pub negative_timeout: Span,
    pub uid: Option<u32>,
    pub gid: Option<u32>,
    /// Permission bits become `0o777 & !umask`, as libfuse does it.
    pub umask: Option<u32>,
    pub direct_io: bool,
    pub kernel_cache: bool,
    pub debug: bool,
}

impl FsOptions {
    /// The options where none is given.
    pub open spec fn unset() -> FsOptions {
        FsOptions {
            entry_timeout: Span { secs: 1, nanos: 0 },
            attr_timeout: Span { secs: 1, nanos: 0 },
            negative_timeout: Span { secs: 0, nanos: 0 },
            uid: None,
            gid: None,
            umask: None,
            direct_io: false,
            kernel_cache: false,
            debug: false,
        }
    }
}

impl Default for FsOptions {
    fn default() -> (r: Self)
        ensures
            r == FsOptions::unset(),
    {
        Self {
            entry_timeout: Span::from_secs(1),
            attr_timeout: Span::from_secs(1),
            negative_timeout: Span::from_secs(0),
            uid: None,
            gid: None,
            umask: None,
            direct_io: false,
            kernel_cache: false,
            debug: false,
        }
    }
}

/// An option whose value cannot be read.
#[derive(Debug)]
pub struct OptionError {
    pub key: String,
    pub value: String,
}

impl OptionError {
    pub fn message(&self) -> (r: String)
        ensures
            r@ == "invalid mount option -o "@ + self.key@ + "="@ + self.value@,
    {
        let mut r = "invalid mount option -o ".to_owned();
        r.append(self.key.as_str());
        r.append("=");
        r.append(self.value.as_str());
        r
    }
}

impl View for OptionError {
    type V = (Seq<char>, Seq<char>);

    open spec fn view(&self) -> (Seq<char>, Seq<char>) {
        (self.key@, self.value@)
    }
}

/// One `-o` value, and the stretch of time that what follows its `=` stands
/// for as a number of seconds, where it does.
#[derive(Debug)]
pub struct MountArg {
    pub text: String,
    pub seconds: Option<Span>,
}

/// What stands before the first `=`.
pub open spec fn option_key(text: Seq<char>) -> Seq<char> {
    if occurs(text, "="@) {
        text.take(choose|at: int| first_at(text, "="@, at))
    } else {
        text
    }
}

/// What stands after the first `=`.
pub open spec fn option_value(text: Seq<char>) -> Option<Seq<char>> {
    if occurs(text, "="@) {
        Some(text.skip((choose|at: int| first_at(text, "="@, at)) + 1))
    } else {
        None
    }
}

/// What an option does: nothing where it is not one of these, else the options
/// with it, or the key and value that cannot be read.
pub open spec fn option_applied(
    fs: FsOptions,
    text: Seq<char>,
    seconds: Option<Span>,
) -> Result<Option<FsOptions>, (Seq<char>, Seq<char>)> {
    let key = option_key(text);
    match option_value(text) {
        Some(value) => {
            if key == "entry_timeout"@ {
                match seconds {
                    Some(entry_timeout) => Ok(Some(FsOptions { entry_timeout, ..fs })),
                    None => Err((key, value)),
                }
            } else if key == "attr_timeout"@ {
                match seconds {
                    Some(attr_timeout) => Ok(Some(FsOptions { attr_timeout, ..fs })),
                    None => Err((key, value)),
                }
            } else if key == "negative_timeout"@ {
                match seconds {
                    Some(negative_timeout) => Ok(Some(FsOptions { negative_timeout, ..fs })),
                    None => Err((key, value)),
                }
            } else if key == "uid"@ {
                match number_in(value, 10) {
                    Some(n) if n <= u32::MAX => Ok(Some(FsOptions { uid: Some(n as u32), ..fs })),
                    _ => Err((key, value)),
                }
            } else if key == "gid"@ {
                match number_in(value, 10) {
                    Some(n) if n <= u32::MAX => Ok(Some(FsOptions { gid: Some(n as u32), ..fs })),
                    _ => Err((key, value)),
                }
            } else if key == "umask"@ {
                match number_in(value, 8) {
                    Some(n) if n <= u32::MAX => Ok(
                        Some(FsOptions { umask: Some(n as u32), ..fs }),
                    ),
                    _ => Err((key, value)),
                }
            } else {
                Ok(None)
            }
        },
        None => {
            if key == "direct_io"@ {
                Ok(Some(FsOptions { direct_io: true, ..fs }))
            } else if key == "kernel_cache"@ {
                Ok(Some(FsOptions { kernel_cache: true, ..fs }))
            } else if key == "debug"@ {
                Ok(Some(FsOptions { debug: true, ..fs }))
            } else {
                Ok(None)
            }
        },
    }
}

/// Options applied one after the other, up to the first that cannot be read;
/// those that are not recognised are left over, in order.
pub open spec fn options_split(
    fs: FsOptions,
    left: Seq<Seq<char>>,
    args: Seq<MountArg>,
) -> Result<(FsOptions, Seq<Seq<char>>), (Seq<char>, Seq<char>)>
    decreases args.len(),
{
    if args.len() == 0 {
        Ok((fs, left))
    } else {
        let text = args[0].text@;
        match option_applied(fs, text, args[0].seconds) {
            Ok(Some(applied)) => options_split(applied, left, args.skip(1)),
            Ok(None) => options_split(fs, left.push(text), args.skip(1)),
            Err(e) => Err(e),
        }
    }
}

fn invalid(key: &str, value: &str) -> (r: OptionError)
    ensures
        r@ == (key@, value@),
{
    OptionError { key: key.to_owned(), value: value.to_owned() }
}

fn seconds(key: &str, value: &str, parsed: Option<Span>) -> (r: Result<Span, OptionError>)
    ensures
        (match r {
            Ok(span) => parsed == Some(span),
            Err(e) => parsed is None && e@ == (key@, value@),
        }),
{
    match parsed {
        Some(span) => Ok(span),
        None => Err(invalid(key, value)),
    }
}

fn number(key: &str, value: &str, radix: u32) -> (r: Result<u32, OptionError>)
    requires
        2 <= radix <= 10,
    ensures
        (match (number_in(value@, radix as nat), r) {
            (Some(n), Ok(m)) => n == m,
            (Some(n), Err(e)) => n > u32::MAX && e@ == (key@, value@),
            (None, Err(e)) => e@ == (key@, value@),
            (None, Ok(_)) => false,
        }),
{
    match parse_number(value, radix) {
        Some(n) => Ok(n),
        None => Err(invalid(key, value)),
    }
}

/// A key, and the value where there is one.
pub fn split_option(opt: &str) -> (r: (String, Option<String>))
    ensures
        r.0@ == option_key(opt@),
        (match r.1 {
            Some(value) => option_value(opt@) == Some(value@),
            None => option_value(opt@) is None,
        }),
{
    let chars = chars_of(opt);
    let equals = chars_of("=");
    proof {
        reveal_strlit("=");
    }
    match find_from(&chars, &equals, 0) {
        Some(at) => {
            proof {
                let chosen = choose|at: int| first_at(opt@, equals@, at);
                assert(first_at(opt@, equals@, at as int));
                assert(first_at(opt@, equals@, chosen));
                assert(chosen == at);
            }
            let len: usize = chars.len();
            assert(at + 1 <= len);
            assert(chars@.subrange(0, at as int) == opt@.take(at as int));
            assert(chars@.subrange(at + 1, len as int) == opt@.skip(at + 1));
            (text_between(&chars, 0, at), Some(text_between(&chars, at + 1, len)))
        },
        None => (opt.to_owned(), None),
    }
}

impl FsOptions {
    /// Split `-o` values into filesystem options and leftover mount options.
    ///
    /// Anything not recognised here is passed through untouched, so kernel and
    /// `fusermount3` options keep working.
    pub fn split(options: Vec<MountArg>) -> (r: Result<(Self, Vec<String>), OptionError>)
        ensures
            (match r {
                Ok((fs, mount)) => options_split(FsOptions::unset(), Seq::empty(), options@) == Ok::<
                    (FsOptions, Seq<Seq<char>>),
                    (Seq<char>, Seq<char>),
                >((fs, texts(mount@))),
                Err(e) => options_split(FsOptions::unset(), Seq::empty(), options@) == Err::<
                    (FsOptions, Seq<Seq<char>>),
                    (Seq<char>, Seq<char>),
                >(e@),
            }),
    {
        let mut fs = Self::default();
        let mut mount: Vec<String> = Vec::new();
        let mut i: usize = 0;
        assert(options@.skip(0) == options@);
        assert(texts(mount@) =~= Seq::empty());
        while i < options.len()
            invariant
                i <= options.len(),
                options_split(fs, texts(mount@), options@.skip(i as int))
                    == options_split(FsOptions::unset(), Seq::empty(), options@),
            decreases options.len() - i,
        {
            let ghost rest = options@.skip(i as int);
            assert(rest.skip(1) == options@.skip(i + 1));
            if !fs.consume(options[i].text.as_str(), options[i].seconds)? {
                let ghost before = mount@;
                mount.push(options[i].text.clone());
                assert(texts(mount@) =~= texts(before).push(rest[0].text@));
            }
            i += 1;
        }
        Ok((fs, mount))
    }

    /// Returns whether `opt` was recognised and applied.
    pub fn consume(&mut self, opt: &str, parsed: Option<Span>) -> (r: Result<bool, OptionError>)
        ensures
            (match (r, option_applied(*old(self), opt@, parsed)) {
                (Ok(true), Ok(Some(applied))) => *final(self) == applied,
                (Ok(false), Ok(None)) => *final(self) == *old(self),
                (Err(e), Err(pair)) => e@ == pair && *final(self) == *old(self),
                _ => false,
            }),
    {
        let (key_text, value_text) = split_option(opt);
        let key = key_text.as_str();
        match &value_text {
            Some(value) => {
                let v = value.as_str();
                if same_text(key, "entry_timeout") {
                    self.entry_timeout = seconds(key, v, parsed)?;
                } else if same_text(key, "attr_timeout") {
                    self.attr_timeout = seconds(key, v, parsed)?;
                } else if same_text(key, "negative_timeout") {
                    self.negative_timeout = seconds(key, v, parsed)?;
                } else if same_text(key, "uid") {
                    self.uid = Some(number(key, v, 10)?);
                } else if same_text(key, "gid") {
                    self.gid = Some(number(key, v, 10)?);
                } else if same_text(key, "umask") {
                    self.umask = Some(number(key, v, 8)?);
                } else {
                    return Ok(false);
                }
            },
            None => {
                if same_text(key, "direct_io") {
                    self.direct_io = true;
                } else if same_text(key, "kernel_cache") {
                    self.kernel_cache = true;
                } else if same_text(key, "debug") {
                    self.debug = true;
                } else {
                    return Ok(false);
                }
            },
        }
        Ok(true)
    }

    /// The mode that device metadata is shown with.
    pub open spec fn shown_mode(&self, mode: u32) -> u32 {
        match self.umask {
            Some(mask) => (mode & S_IFMT) | (0o777 & !mask),
            None => mode,
        }
    }

    /// The owner that device metadata is shown with.
    pub open spec fn shown_uid(&self, uid: u32) -> u32 {
        match self.uid {
            Some(u) => u,
            None => uid,
        }
    }

    /// The group that device metadata is shown with.
    pub open spec fn shown_gid(&self, gid: u32) -> u32 {
        match self.gid {
            Some(g) => g,
            None => gid,
        }
    }

    /// Apply `uid`, `gid` and `umask` overrides to device metadata.
    pub fn apply_ownership(&self, mode: u32, uid: &mut u32, gid: &mut u32) -> (r: u32)
        ensures
            r == self.shown_mode(mode),
            *final(uid) == self.shown_uid(*old(uid)),
            *final(gid) == self.shown_gid(*old(gid)),
    {
        if let Some(u) = self.uid {
            *uid = u;
        }
        if let Some(g) = self.gid {
            *gid = g;
        }
        match self.umask {
            Some(mask) => (mode & S_IFMT) | (0o777 & !mask),
            None => mode,
        }
    }
}

// ---- laws ----

/// Whether an option is one of those that are consumed. This depends on its
/// key and on whether it has a value, and on nothing else.
pub open spec fn recognised(text: Seq<char>) -> bool {
    let key = option_key(text);
    match option_value(text) {
        Some(_) => key == "entry_timeout"@ || key == "attr_timeout"@ || key == "negative_timeout"@
            || key == "uid"@ || key == "gid"@ || key == "umask"@,
        None => key == "direct_io"@ || key == "kernel_cache"@ || key == "debug"@,
    }
}

/// The texts of options, in order.
pub open spec fn arg_texts(args: Seq<MountArg>) -> Seq<Seq<char>> {
    args.map_values(|a: MountArg| a.text@)
}

proof fn lemma_left_over(fs: FsOptions, left: Seq<Seq<char>>, args: Seq<MountArg>)
    ensures
        options_split(fs, left, args) matches Ok((_, mount)) ==> mount == left + arg_texts(
            args,
        ).filter(|t: Seq<char>| !recognised(t)),
    decreases args.len(),
{
    let keep = |t: Seq<char>| !recognised(t);
    let all = arg_texts(args);
    if args.len() == 0 {
        assert(all.filter(keep) =~= Seq::empty()) by {
            reveal(Seq::filter);
        }
        assert(left + Seq::<Seq<char>>::empty() =~= left);
    } else {
        let text = args[0].text@;
        let rest = arg_texts(args.skip(1));
        assert(all =~= seq![text] + rest);
        Seq::filter_distributes_over_add(seq![text], rest, keep);
        assert(seq![text].filter(keep) =~= (if keep(text) {
            seq![text]
        } else {
            Seq::empty()
        })) by {
            reveal_with_fuel(Seq::filter, 2);
            assert(seq![text].drop_last() =~= Seq::empty());
        }
        match option_applied(fs, text, args[0].seconds) {
            Ok(Some(applied)) => {
                lemma_left_over(applied, left, args.skip(1));
                assert(Seq::<Seq<char>>::empty() + rest.filter(keep) =~= rest.filter(keep));
            },
            Ok(None) => {
                lemma_left_over(fs, left.push(text), args.skip(1));
                assert(left + (seq![text] + rest.filter(keep)) =~= left.push(text) + rest.filter(
                    keep,
                ));
            },
            Err(_) => {},
        }
    }
}

/// What is left for the mount is exactly the options that are not recognised,
/// untouched and in the order given.
pub proof fn law_leftovers_are_untouched(args: Seq<MountArg>)
    ensures
        options_split(FsOptions::unset(), Seq::empty(), args) matches Ok((_, mount)) ==> mount
            == arg_texts(args).filter(|t: Seq<char>| !recognised(t)),
{
    lemma_left_over(FsOptions::unset(), Seq::empty(), args);
    let left = arg_texts(args).filter(|t: Seq<char>| !recognised(t));
    assert(Seq::<Seq<char>>::empty() + left =~= left);
}

proof fn lemma_nothing_recognised(fs: FsOptions, left: Seq<Seq<char>>, args: Seq<MountArg>)
    requires
        forall|i: int| 0 <= i < args.len() ==> !recognised((#[trigger] args[i]).text@),
    ensures
        options_split(fs, left, args) == Ok::<
            (FsOptions, Seq<Seq<char>>),
            (Seq<char>, Seq<char>),
        >((fs, left + arg_texts(args))),
    decreases args.len(),
{
    if args.len() == 0 {
        assert(left + arg_texts(args) =~= left);
    } else {
        let text = args[0].text@;
        assert forall|i: int| 0 <= i < args.skip(1).len() implies !recognised(
            (#[trigger] args.skip(1)[i]).text@,
        ) by {
            assert(args.skip(1)[i] == args[i + 1]);
        }
        lemma_nothing_recognised(fs, left.push(text), args.skip(1));
        assert(left.push(text) + arg_texts(args.skip(1)) =~= left + arg_texts(args));
    }
}

/// Where no option is recognised, none is consumed: the filesystem keeps its
/// defaults and the mount gets them all.
pub proof fn law_unknown_options_pass_through(args: Seq<MountArg>)
    requires
        forall|i: int| 0 <= i < args.len() ==> !recognised((#[trigger] args[i]).text@),
    ensures
        options_split(FsOptions::unset(), Seq::empty(), args) == Ok::<
            (FsOptions, Seq<Seq<char>>),
            (Seq<char>, Seq<char>),
        >((FsOptions::unset(), arg_texts(args))),
{
    lemma_nothing_recognised(FsOptions::unset(), Seq::empty(), args);
    assert(Seq::<Seq<char>>::empty() + arg_texts(args) =~= arg_texts(args));
}

/// Overriding the permissions of a file leaves its type alone, and the
/// permission bits are those that the mask leaves open, whatever they were on
/// the device.
pub proof fn law_umask_keeps_the_type(fs: FsOptions, mode: u32, mask: u32)
    requires
        fs.umask == Some(mask),
    ensures
        fs.shown_mode(mode) & S_IFMT == mode & S_IFMT,
        fs.shown_mode(mode) & 0o7777 == 0o777 & !mask,
{
    assert(((mode & 0o170000) | (0o777 & !mask)) & 0o170000 == mode & 0o170000) by (bit_vector);
    assert(((mode & 0o170000) | (0o777 & !mask)) & 0o7777 == 0o777 & !mask) by (bit_vector);
}

/// Where nothing is overridden, a file is shown as the device has it.
pub proof fn law_defaults_show_the_device(fs: FsOptions, mode: u32, uid: u32, gid: u32)
    requires
        fs.uid is None,
        fs.gid is None,
        fs.umask is None,
    ensures
        fs.shown_mode(mode) == mode,
        fs.shown_uid(uid) == uid,
        fs.shown_gid(gid) == gid,
{
}

/// An option is a key and, behind the first equals sign, a value; without one
/// it is all key.
pub proof fn law_options_part_at_the_equals_sign(key: Seq<char>, value: Seq<char>)
    requires
        !key.contains('='),
    ensures
        option_key(key) == key,
        option_value(key) is None,
        option_key(key + seq!['='] + value) == key,
        option_value(key + seq!['='] + value) == Some(value),
{
    reveal_strlit("=");
    if occurs(key, "="@) {
        let at = choose|at: int| occurs_at(key, "="@, at);
        assert(key.subrange(at, at + 1)[0] == '=');
        assert(key[at] == '=');
    }
    let text = key + seq!['='] + value;
    let at = key.len() as int;
    assert(text.subrange(at, at + 1) =~= "="@);
    assert forall|j: int| j < at implies !occurs_at(text, "="@, j) by {
        if occurs_at(text, "="@, j) {
            assert(text.subrange(j, j + 1)[0] == '=');
            assert(key[j] == '=');
        }
    }
    assert(occurs_at(text, "="@, at));
    assert(first_at(text, "="@, at));
    let chosen = choose|i: int| first_at(text, "="@, i);
    assert(first_at(text, "="@, chosen));
    assert(chosen == at);
    assert(text.take(at) =~= key);
    assert(text.skip(at + 1) =~= value);
}

/// `key=value`.
pub open spec fn option_text(key: Seq<char>, value: Seq<char>) -> Seq<char> {
    key + seq!['='] + value
}

proof fn lemma_keys()
    ensures
        !"entry_timeout"@.contains('='),
        !"attr_timeout"@.contains('='),
        !"negative_timeout"@.contains('='),
        !"uid"@.contains('='),
        !"gid"@.contains('='),
        !"umask"@.contains('='),
        !"direct_io"@.contains('='),
        !"kernel_cache"@.contains('='),
        !"debug"@.contains('='),
        "entry_timeout"@.len() == 13,
        "attr_timeout"@.len() == 12,
        "negative_timeout"@.len() == 16,
        "uid"@.len() == 3 && "uid"@[0] == 'u',
        "gid"@.len() == 3 && "gid"@[0] == 'g',
        "umask"@.len() == 5 && "umask"@[0] == 'u',
        "direct_io"@.len() == 9,
        "kernel_cache"@.len() == 12,
        "debug"@.len() == 5 && "debug"@[0] == 'd',
{
    reveal_strlit("entry_timeout");
    reveal_strlit("attr_timeout");
    reveal_strlit("negative_timeout");
    reveal_strlit("uid");
    reveal_strlit("gid");
    reveal_strlit("umask");
    reveal_strlit("direct_io");
    reveal_strlit("kernel_cache");
    reveal_strlit("debug");
}

/// A timeout sets the timeout that its key names to the seconds that its value
/// stands for, and nothing else; a value that stands for none is an error that
/// names key and value.
pub proof fn law_timeouts_are_set(fs: FsOptions, value: Seq<char>, span: Span)
    ensures
        option_applied(fs, option_text("entry_timeout"@, value), Some(span)) == Ok::<
            Option<FsOptions>,
            (Seq<char>, Seq<char>),
        >(Some(FsOptions { entry_timeout: span, ..fs })),
        option_applied(fs, option_text("attr_timeout"@, value), Some(span)) == Ok::<
            Option<FsOptions>,
            (Seq<char>, Seq<char>),
        >(Some(FsOptions { attr_timeout: span, ..fs })),
        option_applied(fs, option_text("negative_timeout"@, value), Some(span)) == Ok::<
            Option<FsOptions>,
            (Seq<char>, Seq<char>),
        >(Some(FsOptions { negative_timeout: span, ..fs })),
        (option_applied(fs, option_text("entry_timeout"@, value), None) matches Err(e) && e
            == ("entry_timeout"@, value)),
        (option_applied(fs, option_text("attr_timeout"@, value), None) matches Err(e) && e
            == ("attr_timeout"@, value)),
        (option_applied(fs, option_text("negative_timeout"@, value), None) matches Err(e) && e
            == ("negative_timeout"@, value)),
{
    lemma_keys();
    law_options_part_at_the_equals_sign("entry_timeout"@, value);
    law_options_part_at_the_equals_sign("attr_timeout"@, value);
    law_options_part_at_the_equals_sign("negative_timeout"@, value);
}

/// An owner and a group are numbers in decimal, a mask is one in octal. Each
/// sets what its key names, and nothing else; a value that is no such number,
/// or does not fit, is an error that names key and value.
pub proof fn law_numbers_are_set(
    fs: FsOptions,
    n: u32,
    value: Seq<char>,
    seconds: Option<Span>,
)
    ensures
        option_applied(fs, option_text("uid"@, decimal(n as nat)), seconds) == Ok::<
            Option<FsOptions>,
            (Seq<char>, Seq<char>),
        >(Some(FsOptions { uid: Some(n), ..fs })),
        option_applied(fs, option_text("gid"@, decimal(n as nat)), seconds) == Ok::<
            Option<FsOptions>,
            (Seq<char>, Seq<char>),
        >(Some(FsOptions { gid: Some(n), ..fs })),
        (value.len() > 0 && all_digits(value, 8) && digits_value(value, 8) == n) ==> option_applied(
            fs,
            option_text("umask"@, value),
            seconds,
        ) == Ok::<Option<FsOptions>, (Seq<char>, Seq<char>)>(
            Some(FsOptions { umask: Some(n), ..fs }),
        ),
        (value.len() == 0 || (value[0] != '+' && !all_digits(value, 10))) ==> {
            &&& option_applied(fs, option_text("uid"@, value), seconds) matches Err(e)
            &&& e == ("uid"@, value)
            &&& option_applied(fs, option_text("gid"@, value), seconds) matches Err(e)
            &&& e == ("gid"@, value)
        },
        (value.len() == 0 || (value[0] != '+' && !all_digits(value, 8))) ==> {
            &&& option_applied(fs, option_text("umask"@, value), seconds) matches Err(e)
            &&& e == ("umask"@, value)
        },
        (value.len() > 0 && all_digits(value, 10) && digits_value(value, 10) > u32::MAX) ==> {
            &&& option_applied(fs, option_text("uid"@, value), seconds) matches Err(e)
            &&& e == ("uid"@, value)
            &&& option_applied(fs, option_text("gid"@, value), seconds) matches Err(e)
            &&& e == ("gid"@, value)
        },
        (value.len() > 0 && all_digits(value, 8) && digits_value(value, 8) > u32::MAX) ==> {
            &&& option_applied(fs, option_text("umask"@, value), seconds) matches Err(e)
            &&& e == ("umask"@, value)
        },
{
    lemma_keys();
    law_options_part_at_the_equals_sign("uid"@, decimal(n as nat));
    law_options_part_at_the_equals_sign("gid"@, decimal(n as nat));
    law_options_part_at_the_equals_sign("uid"@, value);
    law_options_part_at_the_equals_sign("gid"@, value);
    law_options_part_at_the_equals_sign("umask"@, value);
    law_numbers_are_read(n as nat, value, 8);
    law_numbers_are_read(n as nat, value, 10);
    if value.len() > 0 && all_digits(value, 8) {
        assert(digit_value(value[0], 8) is Some);
    }
    if value.len() > 0 && all_digits(value, 10) {
        assert(digit_value(value[0], 10) is Some);
    }
    if value.len() == 0 {
        assert(value =~= Seq::<char>::empty());
    }
}

/// A switch is given without a value and turns on what it names, and nothing
/// else.
pub proof fn law_switches_are_set(fs: FsOptions, seconds: Option<Span>)
    ensures
        option_applied(fs, "direct_io"@, seconds) == Ok::<Option<FsOptions>, (Seq<char>, Seq<char>)>(
            Some(FsOptions { direct_io: true, ..fs }),
        ),
        option_applied(fs, "kernel_cache"@, seconds) == Ok::<Option<FsOptions>, (Seq<char>, Seq<char>)>(
            Some(FsOptions { kernel_cache: true, ..fs }),
        ),
        option_applied(fs, "debug"@, seconds) == Ok::<Option<FsOptions>, (Seq<char>, Seq<char>)>(
            Some(FsOptions { debug: true, ..fs }),
        ),
{
    lemma_keys();
    law_options_part_at_the_equals_sign("direct_io"@, Seq::empty());
    law_options_part_at_the_equals_sign("kernel_cache"@, Seq::empty());
    law_options_part_at_the_equals_sign("debug"@, Seq::empty());
}

/// Any other option, a switch with a value or a number without one among them,
/// is not for the filesystem.
pub proof fn law_other_options_are_left(
    fs: FsOptions,
    key: Seq<char>,
    value: Seq<char>,
    seconds: Option<Span>,
)
    requires
        !key.contains('='),
    ensures
        key != "direct_io"@ && key != "kernel_cache"@ && key != "debug"@ ==> option_applied(
            fs,
            key,
            seconds,
        ) == Ok::<Option<FsOptions>, (Seq<char>, Seq<char>)>(None),
        key != "entry_timeout"@ && key != "attr_timeout"@ && key != "negative_timeout"@ && key
            != "uid"@ && key != "gid"@ && key != "umask"@ ==> option_applied(
            fs,
            option_text(key, value),
            seconds,
        ) == Ok::<Option<FsOptions>, (Seq<char>, Seq<char>)>(None),
{
    law_options_part_at_the_equals_sign(key, value);
}

/// Where no option is given, entries and attributes count for a second, misses
/// for no time, owners and permissions are the device's, and every switch is
/// off.
pub proof fn law_the_defaults()
    ensures
        FsOptions::unset().entry_timeout.length() == 1_000_000_000,
        FsOptions::unset().attr_timeout.length() == 1_000_000_000,
        FsOptions::unset().negative_timeout.length() == 0,
        FsOptions::unset().uid is None,
        FsOptions::unset().gid is None,
        FsOptions::unset().umask is None,
        !FsOptions::unset().direct_io,
        !FsOptions::unset().kernel_cache,
        !FsOptions::unset().debug,
{
}

/// Options are applied in the order given, so that the last of two wins: what
/// one more option does, it does to what those before it came to. After one
/// that cannot be read none counts.
pub proof fn law_options_are_applied_in_order(
    fs: FsOptions,
    left: Seq<Seq<char>>,
    args: Seq<MountArg>,
    last: MountArg,
)
    ensures
        options_split(fs, left, Seq::empty()) == Ok::<
            (FsOptions, Seq<Seq<char>>),
            (Seq<char>, Seq<char>),
        >((fs, left)),
        options_split(fs, left, args.push(last)) == (match options_split(fs, left, args) {
            Err(e) => Err(e),
            Ok((mid, rest)) => match option_applied(mid, last.text@, last.seconds) {
                Err(e) => Err(e),
                Ok(Some(applied)) => Ok((applied, rest)),
                Ok(None) => Ok((mid, rest.push(last.text@))),
            },
        }),
    decreases args.len(),
{
    reveal_with_fuel(options_split, 2);
    let all = args.push(last);
    if args.len() == 0 {
        assert(all[0] == last);
        assert(all.skip(1) =~= Seq::<MountArg>::empty());
    } else {
        assert(all[0] == args[0]);
        assert(all.skip(1) =~= args.skip(1).push(last));
        match option_applied(fs, args[0].text@, args[0].seconds) {
            Ok(Some(applied)) => {
                law_options_are_applied_in_order(applied, left, args.skip(1), last);
            },
            Ok(None) => {
                law_options_are_applied_in_order(
                    fs,
                    left.push(args[0].text@),
                    args.skip(1),
                    last,
                );
            },
            Err(_) => {},
        }
    }
}

/// An owner or a group that is given is shown in place of the device's.
pub proof fn law_given_owners_are_shown(fs: FsOptions, id: u32, uid: u32, gid: u32)
    ensures
        fs.uid == Some(id) ==> fs.shown_uid(uid) == id,
        fs.gid == Some(id) ==> fs.shown_gid(gid) == id,
        fs.uid is None ==> fs.shown_uid(uid) == uid,
        fs.gid is None ==> fs.shown_gid(gid) == gid,
{
}

} // verus!
