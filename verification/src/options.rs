//! From the words of a command line to the configuration of a run.

use vstd::prelude::*;
use vstd::string::*;
use crate::config::{Config, ReadLength};
use crate::error::{ConfigFault, PipelineError};
use crate::jobs::{join_path, joined_path};
use crate::text::same_text;

verus! {

/// The options of a run as they were given: each is the text of its
/// argument, or absent.
#[derive(Debug)]
pub struct RawOptions {
    pub query: Vec<String>,
    pub read_length: Option<String>,
    pub pthresh: Option<String>,
    pub othresh: Option<String>,
    pub uproc_db_dir: Option<String>,
    pub uproc_model_dir: Option<String>,
    pub out_dir: Option<String>,
    pub annotation_dir: Option<String>,
    pub num_concurrent_jobs: Option<String>,
    pub num_halt: Option<String>,
}

/// The directory below the working directory that takes the output where
/// none is named.
pub const DEFAULT_OUT_DIR: &'static str = "uproc-out";

/// The token that asks for the short read-length mode.
pub const SHORT_READS: &'static str = "short";

/// Whether `c` is white space: a character with the Unicode property
/// `White_Space`.
pub open spec fn is_space(c: char) -> bool {
    let n: u32 = c as u32;
    ||| 0x09 <= n <= 0x0D
    ||| n == 0x20
    ||| n == 0x85
    ||| n == 0xA0
    ||| n == 0x1680
    ||| 0x2000 <= n <= 0x200A
    ||| n == 0x2028
    ||| n == 0x2029
    ||| n == 0x202F
    ||| n == 0x205F
    ||| n == 0x3000
}

/// The number of white-space characters at the start of `s`.
pub open spec fn leading_spaces(s: Seq<char>) -> int
    decreases s.len(),
{
    if s.len() == 0 || !is_space(s[0]) {
        0
    } else {
        1 + leading_spaces(s.drop_first())
    }
}

/// The number of white-space characters at the end of `s`.
pub open spec fn trailing_spaces(s: Seq<char>) -> int
    decreases s.len(),
{
    if s.len() == 0 || !is_space(s.last()) {
        0
    } else {
        1 + trailing_spaces(s.drop_last())
    }
}

/// `s` without the white space at its start and at its end.
pub open spec fn trimmed(s: Seq<char>) -> Seq<char> {
    if leading_spaces(s) == s.len() {
        Seq::empty()
    } else {
        s.subrange(leading_spaces(s), s.len() - trailing_spaces(s))
    }
}

/// Whether `c` is one of the digits `0` to `9`.
pub open spec fn is_digit(c: char) -> bool {
    0x30 <= c as u32 <= 0x39
}

/// Whether `s` holds digits only.
pub open spec fn all_digits(s: Seq<char>) -> bool {
    forall|i: int| 0 <= i < s.len() ==> is_digit(#[trigger] s[i])
}

/// The number that a sequence of digits writes.
pub open spec fn digits_value(s: Seq<char>) -> nat
    decreases s.len(),
{
    if s.len() == 0 {
        0
    } else {
        digits_value(s.drop_last()) * 10 + (s.last() as u32 - 0x30) as nat
    }
}

/// The number that `s` writes: an optional `+`, then at least one digit, the
/// value within the range of `u32`; `None` for every other text.
pub open spec fn unsigned_of(s: Seq<char>) -> Option<u32> {
    let body = if s.len() > 0 && s[0] == '+' {
        s.skip(1)
    } else {
        s
    };
    if body.len() > 0 && all_digits(body) && digits_value(body) <= u32::MAX {
        Some(digits_value(body) as u32)
    } else {
        None
    }
}

/// The number that an option's text gives, white space around it set aside;
/// `None` where the text is no number.
pub open spec fn threshold_of(s: Seq<char>) -> Option<u32> {
    unsigned_of(trimmed(s))
}

/// The number that an option gives, if it was given and is one.
pub open spec fn option_number(text: Option<String>) -> Option<u32> {
    match text {
        Some(t) => threshold_of(t@),
        None => None,
    }
}

/// The read-length mode that a token asks for: short for `short`, long for
/// everything else.
pub open spec fn read_length_of(token: Option<String>) -> ReadLength {
    match token {
        Some(t) => if t@ == SHORT_READS@ {
            ReadLength::ShortReads
        } else {
            ReadLength::LongReads
        },
        None => ReadLength::LongReads,
    }
}

proof fn lemma_leading(s: Seq<char>)
    ensures
        0 <= leading_spaces(s) <= s.len(),
        leading_spaces(s) < s.len() ==> !is_space(s[leading_spaces(s)]),
    decreases s.len(),
{
    if s.len() > 0 && is_space(s[0]) {
        lemma_leading(s.drop_first());
    }
}

proof fn lemma_trailing(s: Seq<char>)
    ensures
        0 <= trailing_spaces(s) <= s.len(),
        forall|j: int| s.len() - trailing_spaces(s) <= j < s.len() ==> is_space(s[j]),
    decreases s.len(),
{
    if s.len() > 0 && is_space(s.last()) {
        let t = s.drop_last();
        lemma_trailing(t);
        assert forall|j: int| s.len() - trailing_spaces(s) <= j < s.len() implies is_space(
            s[j],
        ) by {
            if j < t.len() {
                assert(t[j] == s[j]);
            }
        }
    }
}

/// A longer run of digits writes no smaller number.
proof fn lemma_value_monotone(s: Seq<char>, i: int)
    requires
        0 <= i <= s.len(),
        all_digits(s),
    ensures
        digits_value(s.take(i)) <= digits_value(s),
    decreases s.len() - i,
{
    if i < s.len() {
        assert(s.take(i + 1).drop_last() =~= s.take(i));
        assert(is_digit(s[i]));
        lemma_value_monotone(s, i + 1);
    } else {
        assert(s.take(i) =~= s);
    }
}

/// Tells whether `c` is white space.
pub fn is_space_char(c: char) -> (r: bool)
    ensures
        r == is_space(c),
{
    let n: u32 = c as u32;
    (0x09 <= n && n <= 0x0D) || n == 0x20 || n == 0x85 || n == 0xA0 || n == 0x1680 || (0x2000 <= n
        && n <= 0x200A) || n == 0x2028 || n == 0x2029 || n == 0x202F || n == 0x205F || n == 0x3000
}

fn count_leading(text: &str) -> (n: usize)
    ensures
        n == leading_spaces(text@),
{
    let len: usize = text.unicode_len();
    let mut i: usize = 0;
    proof {
        assert(text@.skip(0) =~= text@);
    }
    while i < len
        invariant
            i <= len,
            len == text@.len(),
            leading_spaces(text@) == i + leading_spaces(text@.skip(i as int)),
        decreases len - i,
    {
        if !is_space_char(text.get_char(i)) {
            return i;
        }
        proof {
            assert(text@.skip(i as int).drop_first() =~= text@.skip(i + 1));
        }
        i += 1;
    }
    i
}

fn count_trailing(text: &str) -> (n: usize)
    ensures
        n == trailing_spaces(text@),
{
    let len: usize = text.unicode_len();
    let mut i: usize = len;
    proof {
        assert(text@.take(len as int) =~= text@);
    }
    while i > 0
        invariant
            i <= len,
            len == text@.len(),
            trailing_spaces(text@) == (len - i) + trailing_spaces(text@.take(i as int)),
        decreases i,
    {
        if !is_space_char(text.get_char(i - 1)) {
            return len - i;
        }
        proof {
            assert(text@.take(i as int).drop_last() =~= text@.take(i - 1));
        }
        i -= 1;
    }
    len
}

/// Sets the white space at both ends of `text` aside.
pub fn trim(text: &str) -> (r: &str)
    ensures
        r@ == trimmed(text@),
{
    let len: usize = text.unicode_len();
    let lead: usize = count_leading(text);
    if lead == len {
        proof {
            assert(text@.subrange(0, 0) =~= Seq::<char>::empty());
        }
        return text.substring_char(0, 0);
    }
    let trail: usize = count_trailing(text);
    proof {
        lemma_leading(text@);
        lemma_trailing(text@);
    }
    text.substring_char(lead, len - trail)
}

/// Reads a number as `u32` is written: an optional `+`, then digits.
pub fn parse_unsigned(text: &str) -> (r: Option<u32>)
    ensures
        r == unsigned_of(text@),
{
    let len: usize = text.unicode_len();
    let signed: bool = len > 0 && text.get_char(0) == '+';
    let body = if signed {
        text.substring_char(1, len)
    } else {
        text
    };
    proof {
        if signed {
            assert(body@ =~= text@.skip(1));
        }
    }
    let n: usize = body.unicode_len();
    if n == 0 {
        return None;
    }
    let mut value: u64 = 0;
    let mut i: usize = 0;
    while i < n
        invariant
            i <= n,
            n == body@.len(),
            n > 0,
            body@ == if text@.len() > 0 && text@[0] == '+' {
                text@.skip(1)
            } else {
                text@
            },
            all_digits(body@.take(i as int)),
            value == digits_value(body@.take(i as int)),
            value <= u32::MAX,
        decreases n - i,
    {
        let code: u32 = body.get_char(i) as u32;
        if code < 0x30 || code > 0x39 {
            proof {
                assert(!is_digit(body@[i as int]));
            }
            return None;
        }
        proof {
            assert(body@.take(i + 1).drop_last() =~= body@.take(i as int));
            assert forall|j: int| 0 <= j < i + 1 implies is_digit(
                #[trigger] body@.take(i + 1)[j],
            ) by {
                if j < i {
                    assert(body@.take(i as int)[j] == body@.take(i + 1)[j]);
                }
            }
        }
        let next: u64 = value * 10 + (code - 0x30) as u64;
        if next > 0xFFFF_FFFF {
            proof {
                if all_digits(body@) {
                    lemma_value_monotone(body@, i + 1);
                }
            }
            return None;
        }
        value = next;
        i += 1;
    }
    proof {
        assert(body@.take(n as int) =~= body@);
    }
    Some(value as u32)
}

/// Reads the number of an option; text that is no number counts as absent.
pub fn parse_threshold(text: &str) -> (r: Option<u32>)
    ensures
        r == threshold_of(text@),
{
    parse_unsigned(trim(text))
}

fn number_from(text: &Option<String>) -> (r: Option<u32>)
    ensures
        r == option_number(*text),
{
    match text {
        Some(t) => parse_threshold(t.as_str()),
        None => None,
    }
}

/// Whether `cfg` is what the options `raw` ask for, in the working
/// directory `cwd`.
pub open spec fn configured(cfg: Config, raw: RawOptions, cwd: Seq<char>) -> bool {
    &&& cfg.query == raw.query
    &&& cfg.othresh == option_number(raw.othresh)
    &&& cfg.pthresh == option_number(raw.pthresh)
    &&& cfg.read_length == read_length_of(raw.read_length)
    &&& Some(cfg.uproc_db_dir) == raw.uproc_db_dir
    &&& Some(cfg.uproc_model_dir) == raw.uproc_model_dir
    &&& Some(cfg.annotation_dir) == raw.annotation_dir
    &&& cfg.out_dir@ == match raw.out_dir {
        Some(d) => d@,
        None => joined_path(cwd, DEFAULT_OUT_DIR@),
    }
    &&& cfg.num_concurrent_jobs == option_number(raw.num_concurrent_jobs)
    &&& cfg.num_halt == option_number(raw.num_halt)
}

/// Turns the options as given into a configuration. The three directories
/// of databases, models and annotations must be named; the first that is
/// missing, in this order, is reported. A number that cannot be read counts
/// as absent, and the output goes below `cwd` where no directory is named.
pub fn configure(raw: RawOptions, cwd: &str) -> (r: Result<Config, PipelineError>)
    ensures
        raw.uproc_db_dir is None ==> r is Err && r->Err_0 == PipelineError::Configuration(
            ConfigFault::MissingDbDir,
        ),
        raw.uproc_db_dir is Some && raw.uproc_model_dir is None ==> r is Err && r->Err_0
            == PipelineError::Configuration(ConfigFault::MissingModelDir),
        raw.uproc_db_dir is Some && raw.uproc_model_dir is Some && raw.annotation_dir is None
            ==> r is Err && r->Err_0 == PipelineError::Configuration(
            ConfigFault::MissingAnnotationDir,
        ),
        raw.uproc_db_dir is Some && raw.uproc_model_dir is Some && raw.annotation_dir is Some
            ==> r is Ok && configured(r->Ok_0, raw, cwd@),
{
    let othresh = number_from(&raw.othresh);
    let pthresh = number_from(&raw.pthresh);
    let num_concurrent_jobs = number_from(&raw.num_concurrent_jobs);
    let num_halt = number_from(&raw.num_halt);
    let read_length = match &raw.read_length {
        Some(t) => if same_text(t.as_str(), SHORT_READS) {
            ReadLength::ShortReads
        } else {
            ReadLength::LongReads
        },
        None => ReadLength::LongReads,
    };
    let out_dir = match &raw.out_dir {
        Some(d) => d.clone(),
        None => join_path(cwd, DEFAULT_OUT_DIR),
    };
    let uproc_db_dir = match raw.uproc_db_dir {
        Some(d) => d,
        None => {
            return Err(PipelineError::Configuration(ConfigFault::MissingDbDir));
        },
    };
    let uproc_model_dir = match raw.uproc_model_dir {
        Some(d) => d,
        None => {
            return Err(PipelineError::Configuration(ConfigFault::MissingModelDir));
        },
    };
    let annotation_dir = match raw.annotation_dir {
        Some(d) => d,
        None => {
            return Err(PipelineError::Configuration(ConfigFault::MissingAnnotationDir));
        },
    };
    Ok(
        Config {
            query: raw.query,
            othresh,
            pthresh,
            read_length,
            uproc_db_dir,
            uproc_model_dir,
            annotation_dir,
            out_dir,
            num_concurrent_jobs,
            num_halt,
        },
    )
}

} // verus!
