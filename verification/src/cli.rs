//! Command-line options of the generation program, read from the argument
//! list (the program name first).
use vstd::prelude::*;

use crate::text::{chars_of, string_from_chars};
use crate::tokenizer::bpe::chars_eq;

verus! {

pub open spec fn is_digit(c: char) -> bool {
    '0' <= c && c <= '9'
}

/// The value of a sequence of decimal digits, most significant first.
pub open spec fn digits_value(d: Seq<char>) -> nat
    decreases d.len(),
{
    if d.len() == 0 {
        0
    } else {
        digits_value(d.drop_last()) * 10 + ((d.last() as int) - 48) as nat
    }
}

/// The digits of an unsigned number: the text without a leading `+`.
pub open spec fn unsigned_digits(s: Seq<char>) -> Seq<char> {
    if s.len() > 0 && s[0] == '+' {
        s.drop_first()
    } else {
        s
    }
}

/// Reading an unsigned integer of at most `max` (std's `FromStr` for the
/// unsigned integer types): an optional `+`, then one or more decimal
/// digits whose value does not exceed `max`; anything else is `None`.
pub open spec fn spec_parse_unsigned(s: Seq<char>, max: nat) -> Option<nat> {
    let d = unsigned_digits(s);
    if d.len() > 0 && (forall|i: int| 0 <= i < d.len() ==> #[trigger] is_digit(d[i]))
        && digits_value(d) <= max {
        Some(digits_value(d))
    } else {
        None
    }
}

proof fn lemma_digits_prefix_le(d: Seq<char>, k: int)
    requires
        0 <= k <= d.len(),
    ensures
        digits_value(d.take(k)) <= digits_value(d),
    decreases d.len(),
{
    if k < d.len() {
        lemma_digits_prefix_le(d.drop_last(), k);
        assert(d.drop_last().take(k) =~= d.take(k));
    } else {
        assert(d.take(k) =~= d);
    }
}

/// Reads an unsigned integer of at most `max` (see `spec_parse_unsigned`).
pub fn parse_unsigned(s: &str, max: u64) -> (r: Option<u64>)
    ensures
        match spec_parse_unsigned(s@, max as nat) {
            Some(n) => r == Some(n as u64),
            None => r is None,
        },
{
    let cs = chars_of(s);
    let start: usize = if cs.len() > 0 && cs[0] == '+' {
        1
    } else {
        0
    };
    let ghost d = unsigned_digits(s@);
    proof {
        assert(cs@.skip(start as int) =~= d);
    }
    if start == cs.len() {
        return None;
    }
    let mut v: u64 = 0;
    let mut i: usize = start;
    proof {
        assert(d.take(0) =~= Seq::<char>::empty());
    }
    while i < cs.len()
        invariant
            cs@ == s@,
            d == unsigned_digits(s@),
            d.len() > 0,
            start <= i <= cs@.len(),
            d == cs@.skip(start as int),
            v == digits_value(d.take(i - start)),
            v <= max,
            forall|k: int| 0 <= k < i - start ==> #[trigger] is_digit(d[k]),
        decreases cs@.len() - i,
    {
        let c = cs[i];
        proof {
            assert(d[i - start] == c);
        }
        if !(c >= '0' && c <= '9') {
            proof {
                assert(!is_digit(d[i - start]));
            }
            return None;
        }
        let digit: u64 = (c as u32 - 48) as u64;
        proof {
            assert(d.take(i - start + 1).drop_last() =~= d.take(i - start));
            assert(d.take(i - start + 1).last() == c);
            assert(digits_value(d.take(i - start + 1)) == v * 10 + digit);
        }
        let next = match v.checked_mul(10) {
            Some(t) => t.checked_add(digit),
            None => None,
        };
        match next {
            Some(n) if n <= max => {
                v = n;
            },
            _ => {
                proof {
                    if forall|k: int| 0 <= k < d.len() ==> #[trigger] is_digit(d[k]) {
                        lemma_digits_prefix_le(d, i - start + 1);
                    }
                }
                return None;
            },
        }
        i = i + 1;
    }
    proof {
        assert(d.take(d.len() as int) =~= d);
    }
    Some(v)
}

/// The options, with floating-point options kept as the texts given for
/// them, in order (the caller reads each text, keeping the previous value
/// when a text is not a number).
#[derive(Debug)]
pub struct CliArgs {
    pub model_path: Option<String>,
    pub prompt: String,
    pub max_tokens: usize,
    pub temperature_texts: Vec<String>,
    pub top_k: usize,
    pub top_p_texts: Vec<String>,
    pub seed: u64,
}

pub struct CliModel {
    pub model_path: Option<Seq<char>>,
    pub prompt: Seq<char>,
    pub max_tokens: usize,
    pub temperature_texts: Seq<Seq<char>>,
    pub top_k: usize,
    pub top_p_texts: Seq<Seq<char>>,
    pub seed: u64,
}

pub open spec fn strings_model(v: Seq<String>) -> Seq<Seq<char>> {
    Seq::new(v.len(), |i: int| v[i]@)
}

impl CliArgs {
    pub open spec fn model(&self) -> CliModel {
        CliModel {
            model_path: match self.model_path {
                Some(p) => Some(p@),
                None => None,
            },
            prompt: self.prompt@,
            max_tokens: self.max_tokens,
            temperature_texts: strings_model(self.temperature_texts@),
            top_k: self.top_k,
            top_p_texts: strings_model(self.top_p_texts@),
            seed: self.seed,
        }
    }
}

/// The options when none is given.
pub open spec fn default_cli() -> CliModel {
    CliModel {
        model_path: None,
        prompt: "the meaning of life is"@,
        max_tokens: 30,
        temperature_texts: Seq::empty(),
        top_k: 40,
        top_p_texts: Seq::empty(),
        seed: 42,
    }
}

/// Whether `f` names an option that takes a value.
pub open spec fn takes_value(f: Seq<char>) -> bool {
    f == "--model"@ || f == "-m"@ || f == "--prompt"@ || f == "-p"@ || f == "--max-tokens"@ || f
        == "-n"@ || f == "--temperature"@ || f == "-t"@ || f == "--top-k"@ || f == "--top-p"@ || f
        == "--seed"@
}

/// A number option's value: the number read from `v`, else the previous one.
pub open spec fn number_or(v: Seq<char>, max: nat, previous: nat) -> nat {
    match spec_parse_unsigned(v, max) {
        Some(n) => n,
        None => previous,
    }
}

/// The options after option `f` with value `v`.
pub open spec fn apply_option(a: CliModel, f: Seq<char>, v: Seq<char>) -> CliModel {
    if f == "--model"@ || f == "-m"@ {
        CliModel { model_path: Some(v), ..a }
    } else if f == "--prompt"@ || f == "-p"@ {
        CliModel { prompt: v, ..a }
    } else if f == "--max-tokens"@ || f == "-n"@ {
        CliModel { max_tokens: number_or(v, usize::MAX as nat, a.max_tokens as nat) as usize, ..a }
    } else if f == "--temperature"@ || f == "-t"@ {
        CliModel { temperature_texts: a.temperature_texts.push(v), ..a }
    } else if f == "--top-k"@ {
        CliModel { top_k: number_or(v, usize::MAX as nat, a.top_k as nat) as usize, ..a }
    } else if f == "--top-p"@ {
        CliModel { top_p_texts: a.top_p_texts.push(v), ..a }
    } else {
        CliModel { seed: number_or(v, u64::MAX as nat, a.seed as nat) as u64, ..a }
    }
}

/// The options read from argument `i` on: an option that takes a value
/// consumes the next argument when there is one; other arguments are
/// ignored.
pub open spec fn parse_from(raw: Seq<Seq<char>>, i: nat, a: CliModel) -> CliModel
    decreases raw.len() - i,
{
    if i >= raw.len() {
        a
    } else if takes_value(raw[i as int]) && i + 1 < raw.len() {
        parse_from(raw, i + 2, apply_option(a, raw[i as int], raw[i + 1 as int]))
    } else {
        parse_from(raw, i + 1, a)
    }
}

fn is_flag(arg: &str, name: &str) -> (r: bool)
    ensures
        r == (arg@ == name@),
{
    let a = chars_of(arg);
    let b = chars_of(name);
    chars_eq(a.as_slice(), b.as_slice())
}

fn copy_string(s: &str) -> (r: String)
    ensures
        r@ == s@,
{
    let cs = chars_of(s);
    string_from_chars(cs.as_slice())
}

fn apply_option_exec(args: &mut CliArgs, f: &str, v: &str)
    requires
        takes_value(f@),
    ensures
        final(args).model() == apply_option(old(args).model(), f@, v@),
{
    if is_flag(f, "--model") || is_flag(f, "-m") {
        args.model_path = Some(copy_string(v));
    } else if is_flag(f, "--prompt") || is_flag(f, "-p") {
        args.prompt = copy_string(v);
    } else if is_flag(f, "--max-tokens") || is_flag(f, "-n") {
        match parse_unsigned(v, usize::MAX as u64) {
            Some(n) => {
                args.max_tokens = n as usize;
            },
            None => {},
        }
    } else if is_flag(f, "--temperature") || is_flag(f, "-t") {
        args.temperature_texts.push(copy_string(v));
        proof {
            assert(strings_model(args.temperature_texts@) =~= strings_model(
                old(args).temperature_texts@,
            ).push(v@));
        }
    } else if is_flag(f, "--top-k") {
        match parse_unsigned(v, usize::MAX as u64) {
            Some(n) => {
                args.top_k = n as usize;
            },
            None => {},
        }
    } else if is_flag(f, "--top-p") {
        args.top_p_texts.push(copy_string(v));
        proof {
            assert(strings_model(args.top_p_texts@) =~= strings_model(old(args).top_p_texts@).push(
                v@,
            ));
        }
    } else {
        match parse_unsigned(v, u64::MAX) {
            Some(n) => {
                args.seed = n;
            },
            None => {},
        }
    }
}

fn takes_value_exec(f: &str) -> (r: bool)
    ensures
        r == takes_value(f@),
{
    is_flag(f, "--model") || is_flag(f, "-m") || is_flag(f, "--prompt") || is_flag(f, "-p")
        || is_flag(f, "--max-tokens") || is_flag(f, "-n") || is_flag(f, "--temperature") || is_flag(
        f,
        "-t",
    ) || is_flag(f, "--top-k") || is_flag(f, "--top-p") || is_flag(f, "--seed")
}

/// Reads the options from the argument list `raw` (whose first entry, the
/// program name, is skipped; see `parse_from`).
pub fn parse_args(raw: &[String]) -> (r: CliArgs)
    ensures
        r.model() == parse_from(strings_model(raw@), 1, default_cli()),
{
    let ghost m = strings_model(raw@);
    let mut args = CliArgs {
        model_path: None,
        prompt: copy_string("the meaning of life is"),
        max_tokens: 30,
        temperature_texts: Vec::new(),
        top_k: 40,
        top_p_texts: Vec::new(),
        seed: 42,
    };
    proof {
        assert(args.model().temperature_texts =~= Seq::<Seq<char>>::empty());
        assert(args.model().top_p_texts =~= Seq::<Seq<char>>::empty());
        assert(args.model() == default_cli());
    }
    let mut i: usize = 1;
    while i < raw.len()
        invariant
            m == strings_model(raw@),
            1 <= i,
            parse_from(m, 1, default_cli()) == parse_from(m, i as nat, args.model()),
        decreases raw@.len() - i,
    {
        let flag = raw[i].as_str();
        proof {
            assert(m[i as int] == flag@);
        }
        if i + 1 < raw.len() && takes_value_exec(flag) {
            let value = raw[i + 1].as_str();
            proof {
                assert(m[i + 1] == value@);
            }
            apply_option_exec(&mut args, flag, value);
            i = i + 2;
        } else {
            i = i + 1;
        }
    }
    args
}

} // verus!
