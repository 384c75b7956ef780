//! Command-line engine: tokenizer, argument parsing, dispatch to console
//! commands, and rendering of results and diagnostics as byte strings.

use vstd::prelude::*;

use crate::byte_str::ParseByteStr;
use crate::byte_str::ParseNumErr;
use crate::byte_str::ByteBuf;
use crate::byte_str::spec_digit_char;
use crate::byte_str::spec_fmt_digits;
use crate::byte_str::spec_parse_val;
use crate::byte_str::to_string;
use crate::byte_str::lemma_fmt_digits_len;

verus! {

/// The bytes of an ASCII string, character by character.
pub open spec fn ascii_bytes(s: Seq<char>) -> Seq<u8> {
    Seq::new(s.len(), |i: int| s[i] as u8)
}

/// Append a slice of bytes to an output vector.
fn append_bytes(out: &mut Vec<u8>, s: &[u8])
    ensures
        final(out)@ == old(out)@ + s@,
{
    let mut i: usize = 0;
    proof {
        assert(old(out)@ + s@.take(0) =~= old(out)@);
    }
    while i < s.len()
        invariant
            i <= s@.len(),
            out@ == old(out)@ + s@.take(i as int),
        decreases s@.len() - i,
    {
        out.push(s[i]);
        proof {
            assert(old(out)@ + s@.take(i as int) + seq![s@[i as int]] =~= old(out)@ + s@.take(
                i as int + 1));
        }
        i = i + 1;
    }
    proof {
        assert(s@.take(s@.len() as int) =~= s@);
    }
}

/// Append an ASCII string literal to an output vector.
fn append_lit(out: &mut Vec<u8>, s: &str)
    requires
        vstd::string::is_ascii(s),
    ensures
        final(out)@ == old(out)@ + ascii_bytes(s@),
{
    let b = s.as_bytes();
    proof {
        broadcast use vstd::string::is_ascii_spec_bytes;

        assert(b@ =~= ascii_bytes(s@));
    }
    append_bytes(out, b);
}

/// Byte-wise equality of two slices.
fn bytes_eq(a: &[u8], b: &[u8]) -> (r: bool)
    ensures
        r == (a@ == b@),
{
    if a.len() != b.len() {
        return false;
    }
    let mut i: usize = 0;
    while i < a.len()
        invariant
            i <= a@.len(),
            a@.len() == b@.len(),
            forall|j: int| 0 <= j < i ==> a@[j] == b@[j],
        decreases a@.len() - i,
    {
        if a[i] != b[i] {
            return false;
        }
        i = i + 1;
    }
    proof {
        assert(a@ =~= b@);
    }
    true
}

/// Does the token spell this ASCII literal?
fn is_lit(tok: &[u8], s: &str) -> (r: bool)
    requires
        vstd::string::is_ascii(s),
    ensures
        r == (tok@ == ascii_bytes(s@)),
{
    let b = s.as_bytes();
    proof {
        broadcast use vstd::string::is_ascii_spec_bytes;

        assert(b@ =~= ascii_bytes(s@));
    }
    bytes_eq(tok, b)
}

/// Whitespace for token splitting: space, tab, line feed, form feed,
/// carriage return.
pub open spec fn is_space(b: u8) -> bool {
    b == 32 || b == 9 || b == 10 || b == 12 || b == 13
}

/// Length of the leading run of non-whitespace bytes.
pub open spec fn spec_token_end(s: Seq<u8>) -> nat
    decreases s.len(),
{
    if s.len() == 0 || is_space(s[0]) {
        0
    } else {
        (1 + spec_token_end(s.skip(1))) as nat
    }
}

proof fn lemma_token_end_le(s: Seq<u8>)
    ensures
        spec_token_end(s) <= s.len(),
    decreases s.len(),
{
    if s.len() == 0 || is_space(s[0]) {
    } else {
        lemma_token_end_le(s.skip(1));
    }
}

/// A run of `e` non-whitespace bytes closed off by the end of the sequence
/// or a whitespace byte is exactly the leading token.
proof fn lemma_token_end_run(s: Seq<u8>, e: int)
    requires
        0 <= e <= s.len(),
        forall|j: int| 0 <= j < e ==> !is_space(s[j]),
        e == s.len() || is_space(s[e]),
    ensures
        spec_token_end(s) == e,
    decreases e,
{
    if e == 0 {
    } else {
        assert(!is_space(s[0]));
        assert(forall|j: int| 0 <= j < e - 1 ==> s.skip(1)[j] == s[j + 1]);
        lemma_token_end_run(s.skip(1), e - 1);
    }
}

/// The tokens of a line: maximal runs of non-whitespace bytes, in order,
/// with empty tokens discarded.
pub open spec fn spec_tokenize(s: Seq<u8>) -> Seq<Seq<u8>>
    decreases s.len()
        via spec_tokenize_dec
{
    if s.len() == 0 {
        Seq::empty()
    } else if is_space(s[0]) {
        spec_tokenize(s.skip(1))
    } else {
        seq![s.take(spec_token_end(s) as int)] + spec_tokenize(s.skip(spec_token_end(s) as int))
    }
}

#[via_fn]
proof fn spec_tokenize_dec(s: Seq<u8>) {
    if s.len() > 0 && !is_space(s[0]) {
        lemma_token_end_le(s);
        assert(spec_token_end(s) >= 1);
    }
}

/// Split a line into tokens on runs of whitespace.
pub fn tokenize(line: &[u8]) -> (r: Vec<Vec<u8>>)
    ensures
        r.deep_view() == spec_tokenize(line@),
{
    let len = line.len();
    let mut toks: Vec<Vec<u8>> = Vec::new();
    let mut i: usize = 0;
    proof {
        assert(line@.skip(0) =~= line@);
        assert(toks.deep_view() + spec_tokenize(line@) =~= spec_tokenize(line@));
    }
    while i < len
        invariant
            i <= len,
            len == line@.len(),
            spec_tokenize(line@) == toks.deep_view() + spec_tokenize(line@.skip(i as int)),
        decreases len - i,
    {
        if is_space_exec(line[i]) {
            proof {
                assert(line@.skip(i as int)[0] == line@[i as int]);
                assert(line@.skip(i as int).skip(1) =~= line@.skip(i as int + 1));
            }
            i = i + 1;
        } else {
            let start = i;
            let mut j = i + 1;
            while j < len
                invariant
                    start < j <= len,
                    len == line@.len(),
                    forall|k: int| start <= k < j ==> !is_space(line@[k]),
                ensures
                    start < j <= len,
                    forall|k: int| start <= k < j ==> !is_space(line@[k]),
                    j == len || is_space(line@[j as int]),
                decreases len - j,
            {
                if is_space_exec(line[j]) {
                    break;
                }
                j = j + 1;
            }
            let mut tok: Vec<u8> = Vec::new();
            let mut k = start;
            while k < j
                invariant
                    start <= k <= j <= len,
                    len == line@.len(),
                    tok@ == line@.subrange(start as int, k as int),
                decreases j - k,
            {
                tok.push(line[k]);
                proof {
                    assert(line@.subrange(start as int, k as int).push(line@[k as int])
                        =~= line@.subrange(start as int, k as int + 1));
                }
                k = k + 1;
            }
            proof {
                let rest = line@.skip(start as int);
                assert(forall|q: int| 0 <= q < j - start ==> rest[q] == line@[start + q]);
                assert(j == len || is_space(rest[j - start]));
                lemma_token_end_run(rest, j - start);
                assert(rest.take(j - start) =~= line@.subrange(start as int, j as int));
                assert(rest.skip(j - start) =~= line@.skip(j as int));
                assert(spec_tokenize(rest) == seq![tok@] + spec_tokenize(line@.skip(j as int)));
            }
            let ghost old_dv = toks.deep_view();
            let ghost tokv = tok@;
            proof {
                assert(tok.deep_view() =~= tokv);
            }
            toks.push(tok);
            proof {
                assert(toks.deep_view() =~= old_dv.push(tokv));
                assert(old_dv.push(tokv) + spec_tokenize(line@.skip(j as int)) =~= old_dv + (
                seq![tokv] + spec_tokenize(line@.skip(j as int))));
            }
            i = j;
        }
    }
    proof {
        assert(spec_tokenize(line@.skip(len as int)) =~= Seq::<Seq<u8>>::empty());
        assert(toks.deep_view() + Seq::<Seq<u8>>::empty() =~= toks.deep_view());
    }
    toks
}

/// Whitespace test on a byte, as the tokenizer sees it.
fn is_space_exec(b: u8) -> (r: bool)
    ensures
        r == is_space(b),
{
    b == 32 || b == 9 || b == 10 || b == 12 || b == 13
}

/// Error from turning a token list into a command.
#[derive(Clone, Copy, Debug, PartialEq, Eq, Structural)]
pub enum ParseArgErr {
    /// Bad argument at token index .0 (counted over the full token list,
    /// command name included), failed to parse because of .1
    BadArg(usize, ParseNumErr),
    NotEnoughArgs,
    TooManyArgs,
    UnknownCommand,
}

/// A validated console command, ready to act on.
pub enum Command {
    /// Emit the static help text
    Help,
    /// Reset into the system bootloader
    Boot,
    /// Exchange these bytes with the flash device
    FlashCmd(Vec<u8>),
    /// Read `words` machine words starting at `addr`
    Read { addr: u32, words: usize },
    /// Write the given words sequentially starting at `addr`
    Write { addr: u32, words: Vec<u32> },
}

/// Mathematical model of a `Command`.
pub enum CmdModel {
    Help,
    Boot,
    FlashCmd(Seq<u8>),
    Read { addr: u32, words: usize },
    Write { addr: u32, words: Seq<u32> },
}

impl View for Command {
    type V = CmdModel;

    open spec fn view(&self) -> CmdModel {
        match self {
            Command::Help => CmdModel::Help,
            Command::Boot => CmdModel::Boot,
            Command::FlashCmd(b) => CmdModel::FlashCmd(b@),
            Command::Read { addr, words } => CmdModel::Read { addr: *addr, words: *words },
            Command::Write { addr, words } => CmdModel::Write { addr: *addr, words: words@ },
        }
    }
}

/// Parse every token of `args` from `idx` on as a value of width `T`, with
/// `room` slots left in the destination. The first failing token aborts with
/// its index; a token beyond the capacity is `TooManyArgs`.
pub open spec fn spec_parse_rest<T: ParseByteStr>(args: Seq<Seq<u8>>, idx: int, room: int)
    -> Result<Seq<T>, ParseArgErr>
    decreases args.len(),
{
    if args.len() == 0 {
        Ok(Seq::empty())
    } else {
        match spec_parse_val::<T>(args[0]) {
            Err(e) => Err(ParseArgErr::BadArg(idx as usize, e)),
            Ok(v) => if room <= 0 {
                Err(ParseArgErr::TooManyArgs)
            } else {
                match spec_parse_rest::<T>(args.skip(1), idx + 1, room - 1) {
                    Ok(rest) => Ok(seq![v] + rest),
                    Err(e) => Err(e),
                }
            },
        }
    }
}

/// The values stored before `spec_parse_rest` stops: the leading tokens
/// that parse as `T`, cut off at the first failing token or once `room`
/// values have been taken. This is what the destination holds when the
/// parse fails part-way through.
pub open spec fn spec_parsed_prefix<T: ParseByteStr>(args: Seq<Seq<u8>>, room: int) -> Seq<T>
    decreases args.len(),
{
    if args.len() == 0 {
        Seq::empty()
    } else {
        match spec_parse_val::<T>(args[0]) {
            Ok(v) => if room <= 0 {
                Seq::empty()
            } else {
                seq![v] + spec_parsed_prefix::<T>(args.skip(1), room - 1)
            },
            Err(e) => Seq::empty(),
        }
    }
}

/// A slice of byte vectors, seen deeply, is the sequence of their contents.
proof fn lemma_deep_view_slice(args: &[Vec<u8>])
    ensures
        args.deep_view().len() == args@.len(),
        forall|q: int| 0 <= q < args@.len() ==> args.deep_view()[q] == args@[q]@,
{
    assert forall|q: int| 0 <= q < args@.len() implies args.deep_view()[q] == args@[q]@ by {
        assert(args@[q].deep_view() =~= args@[q]@);
    }
}

/// Parse the tokens of `args` from `arg_index` on as values of width `T` and
/// append them to `buf`, which has room for `cap` values in all. Reports the
/// full-list index of the first failing token, or `TooManyArgs` when a value
/// would not fit; either way the values parsed before the failure stay
/// appended, and on `TooManyArgs` the destination is full.
#[verifier::loop_isolation(false)]
pub fn parse_rest_args<T: ParseByteStr>(
    args: &[Vec<u8>],
    arg_index: usize,
    buf: &mut Vec<T>,
    cap: usize,
) -> (r: Result<(), ParseArgErr>)
    requires
        arg_index <= args@.len(),
        old(buf)@.len() <= cap,
    ensures
        match spec_parse_rest::<T>(
            args.deep_view().skip(arg_index as int),
            arg_index as int,
            cap - old(buf)@.len(),
        ) {
            Ok(vs) => r is Ok && final(buf)@ == old(buf)@ + vs,
            Err(e) => r == Err::<(), ParseArgErr>(e) && final(buf)@ == old(buf)@
                + spec_parsed_prefix::<T>(
                args.deep_view().skip(arg_index as int),
                cap - old(buf)@.len(),
            ) && (e is TooManyArgs ==> final(buf)@.len() == cap),
        },
{
    let ghost dv = args.deep_view();
    let ghost buf0 = old(buf)@;
    let ghost old_len = old(buf)@.len() as int;
    proof {
        lemma_deep_view_slice(args);
        assert(buf@.take(old_len) =~= buf0);
        assert(buf@.skip(old_len) =~= Seq::<T>::empty());
        assert(buf0 + buf@.skip(old_len) =~= buf@);
        assert(buf@.skip(old_len) + spec_parsed_prefix::<T>(dv.skip(arg_index as int), cap
            - old_len) =~= spec_parsed_prefix::<T>(dv.skip(arg_index as int), cap - old_len));
    }
    let len = args.len();
    let mut i = arg_index;
    while i < len
        invariant
            arg_index <= i <= len,
            len == args@.len(),
            dv == args.deep_view(),
            dv.len() == args@.len(),
            forall|q: int| 0 <= q < args@.len() ==> dv[q] == args@[q]@,
            buf0.len() == old_len,
            buf@.len() <= cap,
            old_len <= buf@.len(),
            buf@.take(old_len) == buf0,
            spec_parse_rest::<T>(dv.skip(arg_index as int), arg_index as int, cap - old_len)
                == match spec_parse_rest::<T>(dv.skip(i as int), i as int, cap - buf@.len()) {
                    Ok(vs) => Ok::<Seq<T>, ParseArgErr>(buf@.skip(old_len) + vs),
                    Err(e) => Err::<Seq<T>, ParseArgErr>(e),
                },
            spec_parsed_prefix::<T>(dv.skip(arg_index as int), cap - old_len) == buf@.skip(old_len)
                + spec_parsed_prefix::<T>(dv.skip(i as int), cap - buf@.len()),
        decreases len - i,
    {
        proof {
            assert(dv.skip(i as int)[0] == dv[i as int]);
            assert(dv.skip(i as int).skip(1) =~= dv.skip(i as int + 1));
        }
        match T::parse(args[i].as_slice()) {
            Err(e) => {
                proof {
                    assert(spec_parsed_prefix::<T>(dv.skip(i as int), cap - buf@.len())
                        =~= Seq::<T>::empty());
                    assert(buf@.skip(old_len) + Seq::<T>::empty() =~= buf@.skip(old_len));
                    assert(buf0 + buf@.skip(old_len) =~= buf@);
                }
                return Err(ParseArgErr::BadArg(i, e));
            },
            Ok(v) => {
                if buf.len() >= cap {
                    proof {
                        assert(spec_parsed_prefix::<T>(dv.skip(i as int), cap - buf@.len())
                            =~= Seq::<T>::empty());
                        assert(buf@.skip(old_len) + Seq::<T>::empty() =~= buf@.skip(old_len));
                        assert(buf0 + buf@.skip(old_len) =~= buf@);
                    }
                    return Err(ParseArgErr::TooManyArgs);
                }
                let ghost got = buf@.skip(old_len);
                buf.push(v);
                proof {
                    assert(buf@.take(old_len) =~= buf0);
                    assert(buf@.skip(old_len) =~= got.push(v));
                    assert forall|vs: Seq<T>| true implies got + (seq![v] + vs) == got.push(v)
                        + vs by {
                        assert(got + (seq![v] + vs) =~= got.push(v) + vs);
                    }
                }
            },
        }
        i = i + 1;
    }
    proof {
        assert(dv.skip(len as int) =~= Seq::<Seq<u8>>::empty());
        assert(buf@.skip(old_len) + Seq::<T>::empty() =~= buf@.skip(old_len));
        assert(buf0 + buf@.skip(old_len) =~= buf@);
    }
    Ok(())
}

/// The command named by a token list (`toks[0]` is the command name),
/// with its arguments validated and parsed, or the error that the
/// dispatcher reports for it. `num_args` bounds the argument accumulators.
pub open spec fn spec_command(toks: Seq<Seq<u8>>, num_args: int) -> Result<CmdModel, ParseArgErr>
    recommends
        toks.len() >= 1,
{
    let head = toks[0];
    if head == ascii_bytes("h"@) || head == ascii_bytes("help"@) {
        Ok(CmdModel::Help)
    } else if head == ascii_bytes("b"@) || head == ascii_bytes("boot"@) {
        Ok(CmdModel::Boot)
    } else if head == ascii_bytes("c"@) || head == ascii_bytes("cmd"@) || head == ascii_bytes(
        "command"@,
    ) {
        match spec_parse_rest::<u8>(toks.skip(1), 1, num_args) {
            Ok(bytes) => Ok(CmdModel::FlashCmd(bytes)),
            Err(e) => Err(e),
        }
    } else if head == ascii_bytes("r"@) || head == ascii_bytes("read"@) {
        if toks.len() == 1 {
            Err(ParseArgErr::NotEnoughArgs)
        } else if toks.len() > 3 {
            Err(ParseArgErr::TooManyArgs)
        } else {
            match spec_parse_val::<u32>(toks[1]) {
                Err(e) => Err(ParseArgErr::BadArg(1, e)),
                Ok(addr) => if toks.len() == 3 {
                    match spec_parse_val::<usize>(toks[2]) {
                        Err(e) => Err(ParseArgErr::BadArg(2, e)),
                        Ok(words) => Ok(CmdModel::Read { addr, words }),
                    }
                } else {
                    Ok(CmdModel::Read { addr, words: 1 })
                },
            }
        }
    } else if head == ascii_bytes("w"@) || head == ascii_bytes("write"@) {
        if toks.len() < 3 {
            Err(ParseArgErr::NotEnoughArgs)
        } else {
            match spec_parse_val::<u32>(toks[1]) {
                Err(e) => Err(ParseArgErr::BadArg(1, e)),
                Ok(addr) => match spec_parse_rest::<u32>(toks.skip(2), 2, num_args) {
                    Ok(words) => Ok(CmdModel::Write { addr, words }),
                    Err(e) => Err(e),
                },
            }
        }
    } else {
        Err(ParseArgErr::UnknownCommand)
    }
}

/// Turn a token list into a validated command: a literal match on the
/// command name, then argument count and type checks as `spec_command`
/// prescribes. Every failure carries the full-list index of the bad token.
pub fn parse_with_error(toks: &[Vec<u8>], num_args: usize) -> (r: Result<Command, ParseArgErr>)
    requires
        toks@.len() >= 1,
    ensures
        match (r, spec_command(toks.deep_view(), num_args as int)) {
            (Ok(c), Ok(m)) => c@ == m,
            (Err(e1), Err(e2)) => e1 == e2,
            _ => false,
        },
{
    proof {
        lemma_deep_view_slice(toks);
        reveal_strlit("h");
        reveal_strlit("help");
        reveal_strlit("b");
        reveal_strlit("boot");
        reveal_strlit("c");
        reveal_strlit("cmd");
        reveal_strlit("command");
        reveal_strlit("r");
        reveal_strlit("read");
        reveal_strlit("w");
        reveal_strlit("write");
    }
    let ghost dv = toks.deep_view();
    let head = toks[0].as_slice();
    if is_lit(head, "h") || is_lit(head, "help") {
        Ok(Command::Help)
    } else if is_lit(head, "b") || is_lit(head, "boot") {
        Ok(Command::Boot)
    } else if is_lit(head, "c") || is_lit(head, "cmd") || is_lit(head, "command") {
        let mut bytes: Vec<u8> = Vec::new();
        match parse_rest_args::<u8>(toks, 1, &mut bytes, num_args) {
            Ok(()) => {
                proof {
                    assert(dv.skip(1) =~= toks.deep_view().skip(1));
                    assert(Seq::<u8>::empty() + bytes@ =~= bytes@);
                }
                Ok(Command::FlashCmd(bytes))
            },
            Err(e) => Err(e),
        }
    } else if is_lit(head, "r") || is_lit(head, "read") {
        if toks.len() == 1 {
            return Err(ParseArgErr::NotEnoughArgs);
        }
        if toks.len() > 3 {
            return Err(ParseArgErr::TooManyArgs);
        }
        let addr = match u32::parse(toks[1].as_slice()) {
            Ok(a) => a,
            Err(e) => {
                return Err(ParseArgErr::BadArg(1, e));
            },
        };
        let words: usize = if toks.len() == 3 {
            match usize::parse(toks[2].as_slice()) {
                Ok(w) => w,
                Err(e) => {
                    return Err(ParseArgErr::BadArg(2, e));
                },
            }
        } else {
            1
        };
        Ok(Command::Read { addr, words })
    } else if is_lit(head, "w") || is_lit(head, "write") {
        if toks.len() < 3 {
            return Err(ParseArgErr::NotEnoughArgs);
        }
        let addr = match u32::parse(toks[1].as_slice()) {
            Ok(a) => a,
            Err(e) => {
                return Err(ParseArgErr::BadArg(1, e));
            },
        };
        let mut words: Vec<u32> = Vec::new();
        match parse_rest_args::<u32>(toks, 2, &mut words, num_args) {
            Ok(()) => {
                proof {
                    assert(dv.skip(2) =~= toks.deep_view().skip(2));
                    assert(Seq::<u32>::empty() + words@ =~= words@);
                }
                Ok(Command::Write { addr, words })
            },
            Err(e) => Err(e),
        }
    } else {
        Err(ParseArgErr::UnknownCommand)
    }
}

/// ASCII digit byte for a value below 36.
fn digit_char(v: u8) -> (r: u8)
    requires
        v < 36,
    ensures
        r == spec_digit_char(v as nat),
{
    if v < 10 {
        48 + v
    } else {
        55 + v
    }
}

/// Append the hexadecimal digits of `w` (no prefix, no padding) to `out`.
fn append_hex_word(out: &mut Vec<u8>, w: u32)
    ensures
        final(out)@ == old(out)@ + spec_fmt_digits(w as nat, 16),
{
    let mut buf = ByteBuf::new(8);
    proof {
        reveal_with_fuel(vstd::arithmetic::power::pow, 9);
        assert(vstd::arithmetic::power::pow(16, 8) == 0x1_0000_0000);
        lemma_fmt_digits_len(w as nat, 16, 8);
    }
    let res = to_string(w as usize, 16, &mut buf);
    proof {
        assert(res is Ok);
        assert(Seq::<u8>::empty().reverse() =~= Seq::<u8>::empty());
        assert(buf@ =~= spec_fmt_digits(w as nat, 16));
    }
    append_bytes(out, buf.as_slice());
}

/// Append the decimal digits of `n` to `out`.
fn append_dec(out: &mut Vec<u8>, n: usize)
    ensures
        final(out)@ == old(out)@ + spec_fmt_digits(n as nat, 10),
{
    let mut buf = ByteBuf::new(20);
    proof {
        reveal_with_fuel(vstd::arithmetic::power::pow, 21);
        assert(vstd::arithmetic::power::pow(10, 20) == 0x56bc75e2d63100000);
        assert(usize::MAX <= u64::MAX);
        lemma_fmt_digits_len(n as nat, 10, 20);
    }
    let res = to_string(n, 10, &mut buf);
    proof {
        assert(res is Ok);
        assert(Seq::<u8>::empty().reverse() =~= Seq::<u8>::empty());
        assert(buf@ =~= spec_fmt_digits(n as nat, 10));
    }
    append_bytes(out, buf.as_slice());
}

/// Two hexadecimal digits of a byte, zero padded.
pub open spec fn spec_hex2(b: u8) -> Seq<u8> {
    seq![spec_digit_char((b / 16) as nat), spec_digit_char((b % 16) as nat)]
}

/// One ` XX` group per byte.
pub open spec fn spec_hex_pairs(bytes: Seq<u8>) -> Seq<u8>
    decreases bytes.len(),
{
    if bytes.len() == 0 {
        Seq::empty()
    } else {
        seq![32u8] + spec_hex2(bytes[0]) + spec_hex_pairs(bytes.skip(1))
    }
}

/// The echo for a completed flash command: ` ->` then each response byte as
/// space-separated two-digit hex, then a line ending.
pub open spec fn spec_render_flash_response(bytes: Seq<u8>) -> Seq<u8> {
    ascii_bytes(" ->"@) + spec_hex_pairs(bytes) + ascii_bytes("\r\n"@)
}

/// Render the response bytes of a flash command for echoing.
#[verifier::loop_isolation(false)]
pub fn render_flash_response(bytes: &[u8]) -> (r: Vec<u8>)
    ensures
        r@ == spec_render_flash_response(bytes@),
{
    proof {
        reveal_strlit(" ->");
        reveal_strlit("\r\n");
    }
    let mut out: Vec<u8> = Vec::new();
    append_lit(&mut out, " ->");
    proof {
        assert(Seq::<u8>::empty() + ascii_bytes(" ->"@) =~= ascii_bytes(" ->"@));
        assert(bytes@.skip(0) =~= bytes@);
        assert(spec_hex_pairs(bytes@.skip(0)) == spec_hex_pairs(bytes@));
    }
    let mut i: usize = 0;
    while i < bytes.len()
        invariant
            i <= bytes@.len(),
            out@ + spec_hex_pairs(bytes@.skip(i as int)) == ascii_bytes(" ->"@) + spec_hex_pairs(
                bytes@,
            ),
        decreases bytes@.len() - i,
    {
        let b = bytes[i];
        proof {
            vstd::arithmetic::div_mod::lemma_div_is_ordered(b as int, 255, 16);
        }
        out.push(32);
        out.push(digit_char(b / 16));
        out.push(digit_char(b % 16));
        proof {
            assert(bytes@.skip(i as int)[0] == b);
            assert(bytes@.skip(i as int).skip(1) =~= bytes@.skip(i as int + 1));
            assert(out@ =~= out@.take(out@.len() - 3) + (seq![32u8] + spec_hex2(b)));
        }
        i = i + 1;
    }
    proof {
        assert(spec_hex_pairs(bytes@.skip(bytes@.len() as int)) =~= Seq::<u8>::empty());
        assert(out@ + Seq::<u8>::empty() =~= out@);
    }
    append_lit(&mut out, "\r\n");
    out
}

/// One ` 0x` + hex digits group per word.
pub open spec fn spec_hex_words(ws: Seq<u32>) -> Seq<u8>
    decreases ws.len(),
{
    if ws.len() == 0 {
        Seq::empty()
    } else {
        ascii_bytes(" 0x"@) + spec_fmt_digits(ws[0] as nat, 16) + spec_hex_words(ws.skip(1))
    }
}

/// The output of a memory read: a line ending, then each word as
/// ` 0x`-prefixed hex, then a line ending.
pub open spec fn spec_render_read_words(ws: Seq<u32>) -> Seq<u8> {
    ascii_bytes("\r\n"@) + spec_hex_words(ws) + ascii_bytes("\r\n"@)
}

/// Render the words read from memory.
#[verifier::loop_isolation(false)]
pub fn render_read_words(words: &[u32]) -> (r: Vec<u8>)
    ensures
        r@ == spec_render_read_words(words@),
{
    proof {
        reveal_strlit(" 0x");
        reveal_strlit("\r\n");
    }
    let mut out: Vec<u8> = Vec::new();
    append_lit(&mut out, "\r\n");
    proof {
        assert(Seq::<u8>::empty() + ascii_bytes("\r\n"@) =~= ascii_bytes("\r\n"@));
        assert(words@.skip(0) =~= words@);
        assert(spec_hex_words(words@.skip(0)) == spec_hex_words(words@));
    }
    let mut i: usize = 0;
    while i < words.len()
        invariant
            i <= words@.len(),
            out@ + spec_hex_words(words@.skip(i as int)) == ascii_bytes("\r\n"@)
                + spec_hex_words(words@),
        decreases words@.len() - i,
    {
        let w = words[i];
        let ghost before = out@;
        append_lit(&mut out, " 0x");
        append_hex_word(&mut out, w);
        proof {
            assert(words@.skip(i as int)[0] == w);
            assert(words@.skip(i as int).skip(1) =~= words@.skip(i as int + 1));
            assert(out@ =~= before + (ascii_bytes(" 0x"@) + spec_fmt_digits(w as nat, 16)));
        }
        i = i + 1;
    }
    proof {
        assert(spec_hex_words(words@.skip(words@.len() as int)) =~= Seq::<u8>::empty());
        assert(out@ + Seq::<u8>::empty() =~= out@);
    }
    append_lit(&mut out, "\r\n");
    out
}

/// The diagnostic line for each dispatch error, as the console prints it.
pub open spec fn spec_render_error(e: ParseArgErr, line: Seq<u8>) -> Seq<u8> {
    match e {
        ParseArgErr::UnknownCommand => ascii_bytes("Unknown command \""@) + line + ascii_bytes(
            "\"\r\n"@,
        ),
        ParseArgErr::NotEnoughArgs => ascii_bytes("Not enough arguments\r\n"@),
        ParseArgErr::TooManyArgs => ascii_bytes("Too many arguments\r\n"@),
        ParseArgErr::BadArg(i, ParseNumErr::BadDigit(c)) => ascii_bytes("Bad argument "@)
            + spec_fmt_digits(i as nat, 10) + ascii_bytes(" `"@) + seq![c] + ascii_bytes(
            "` (digit parse)\r\n"@,
        ),
        ParseArgErr::BadArg(i, ParseNumErr::Overflow) => ascii_bytes("Bad argument "@)
            + spec_fmt_digits(i as nat, 10) + ascii_bytes(" (number overflow)\r\n"@),
        ParseArgErr::BadArg(_, ParseNumErr::BadBase(_)) => ascii_bytes("Bad numerical base\r\n"@),
    }
}

/// Render the one-line diagnostic for a dispatch error. The raw input line
/// is echoed inside the message for an unknown command.
pub fn render_error(e: &ParseArgErr, line: &[u8]) -> (r: Vec<u8>)
    ensures
        r@ == spec_render_error(*e, line@),
{
    let mut out: Vec<u8> = Vec::new();
    match e {
        ParseArgErr::UnknownCommand => {
            proof {
                reveal_strlit("Unknown command \"");
                reveal_strlit("\"\r\n");
            }
            append_lit(&mut out, "Unknown command \"");
            append_bytes(&mut out, line);
            append_lit(&mut out, "\"\r\n");
            proof {
                assert(out@ =~= spec_render_error(*e, line@));
            }
        },
        ParseArgErr::NotEnoughArgs => {
            proof {
                reveal_strlit("Not enough arguments\r\n");
            }
            append_lit(&mut out, "Not enough arguments\r\n");
            proof {
                assert(out@ =~= spec_render_error(*e, line@));
            }
        },
        ParseArgErr::TooManyArgs => {
            proof {
                reveal_strlit("Too many arguments\r\n");
            }
            append_lit(&mut out, "Too many arguments\r\n");
            proof {
                assert(out@ =~= spec_render_error(*e, line@));
            }
        },
        ParseArgErr::BadArg(i, err) => {
            match err {
                ParseNumErr::BadDigit(c) => {
                    proof {
                        reveal_strlit("Bad argument ");
                        reveal_strlit(" `");
                        reveal_strlit("` (digit parse)\r\n");
                    }
                    append_lit(&mut out, "Bad argument ");
                    append_dec(&mut out, *i);
                    append_lit(&mut out, " `");
                    out.push(*c);
                    append_lit(&mut out, "` (digit parse)\r\n");
                    proof {
                        assert(out@ =~= spec_render_error(*e, line@));
                    }
                },
                ParseNumErr::Overflow => {
                    proof {
                        reveal_strlit("Bad argument ");
                        reveal_strlit(" (number overflow)\r\n");
                    }
                    append_lit(&mut out, "Bad argument ");
                    append_dec(&mut out, *i);
                    append_lit(&mut out, " (number overflow)\r\n");
                    proof {
                        assert(out@ =~= spec_render_error(*e, line@));
                    }
                },
                ParseNumErr::BadBase(_) => {
                    proof {
                        reveal_strlit("Bad numerical base\r\n");
                    }
                    append_lit(&mut out, "Bad numerical base\r\n");
                    proof {
                        assert(out@ =~= spec_render_error(*e, line@));
                    }
                },
            }
        },
    }
    out
}

/// The static help text.
pub open spec fn spec_help_text() -> Seq<u8> {
    ascii_bytes(
        "Commands:\r\n\r\nh|help: print this help\r\nb|boot: bootloader\r\nc|cmd|command BYTE*: send bytes to flash\r\nr|read ADDR [WORDS=1]: read words from ADDR\r\nw|write ADDR WORD+: write words to ADDR\r\n"@,
    )
}

/// What one input line produced: bytes to echo back over the serial channel,
/// and the hardware action, if any, left for the caller to perform.
pub struct Dispatch {
    pub output: Vec<u8>,
    pub action: Option<Command>,
}

/// Everything `parse` does with a line: the immediate output bytes and the
/// action handed back. An empty line echoes a line ending; a line with more
/// than `num_args` tokens is too long; otherwise the line's command decides.
pub open spec fn spec_dispatch(line: Seq<u8>, num_args: int) -> (Seq<u8>, Option<CmdModel>) {
    let toks = spec_tokenize(line);
    if toks.len() == 0 {
        (ascii_bytes("\r\n"@), None::<CmdModel>)
    } else if toks.len() > num_args {
        (spec_render_error(ParseArgErr::TooManyArgs, line), None::<CmdModel>)
    } else {
        match spec_command(toks, num_args) {
            Ok(CmdModel::Help) => (spec_help_text(), None::<CmdModel>),
            Ok(m) => (Seq::<u8>::empty(), Some(m)),
            Err(e) => (spec_render_error(e, line), None::<CmdModel>),
        }
    }
}

/// Tokenize one command line and dispatch it. Help and every diagnostic are
/// rendered into `output`; a hardware command (boot, flash exchange, memory
/// read or write) is returned as the `action` for the caller to run.
pub fn parse(line: &[u8], num_args: usize) -> (r: Dispatch)
    requires
        1 <= num_args,
    ensures
        ({
            let (out, act) = spec_dispatch(line@, num_args as int);
            &&& r.output@ == out
            &&& match (r.action, act) {
                (None::<Command>, None::<CmdModel>) => true,
                (Some(c), Some(m)) => c@ == m,
                _ => false,
            }
        }),
{
    let toks = tokenize(line);
    let ghost dv = toks.deep_view();
    if toks.len() == 0 {
        let mut out: Vec<u8> = Vec::new();
        proof {
            reveal_strlit("\r\n");
        }
        append_lit(&mut out, "\r\n");
        proof {
            assert(out@ =~= ascii_bytes("\r\n"@));
        }
        return Dispatch { output: out, action: None };
    }
    if toks.len() > num_args {
        let out = render_error(&ParseArgErr::TooManyArgs, line);
        return Dispatch { output: out, action: None };
    }
    let tslice = toks.as_slice();
    proof {
        assert(tslice.deep_view() =~= dv);
    }
    match parse_with_error(tslice, num_args) {
        Ok(Command::Help) => {
            let mut out: Vec<u8> = Vec::new();
            proof {
                reveal_strlit(
                    "Commands:\r\n\r\nh|help: print this help\r\nb|boot: bootloader\r\nc|cmd|command BYTE*: send bytes to flash\r\nr|read ADDR [WORDS=1]: read words from ADDR\r\nw|write ADDR WORD+: write words to ADDR\r\n",
                );
            }
            append_lit(
                &mut out,
                "Commands:\r\n\r\nh|help: print this help\r\nb|boot: bootloader\r\nc|cmd|command BYTE*: send bytes to flash\r\nr|read ADDR [WORDS=1]: read words from ADDR\r\nw|write ADDR WORD+: write words to ADDR\r\n",
            );
            proof {
                assert(out@ =~= spec_help_text());
            }
            Dispatch { output: out, action: None }
        },
        Ok(c) => Dispatch { output: Vec::new(), action: Some(c) },
        Err(e) => Dispatch { output: render_error(&e, line), action: None },
    }
}

} // verus!
