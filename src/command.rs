//! Client commands and their encoding as RESP request frames.
use vstd::prelude::*;
use vstd::utf8::encode_utf8;

use crate::buffer::{append_bytes, buffer_bytes, buffer_from};
use crate::decimal::{digits_of, int_text, i64_text, u64_text};

verus! {

/// The UTF-8 bytes of a text.
pub open spec fn word(s: Seq<char>) -> Seq<u8> {
    encode_utf8(s)
}

pub open spec fn crlf() -> Seq<u8> {
    seq![13u8, 10u8]
}

/// One argument as a bulk string: `$`, its byte length, CRLF, its bytes, CRLF.
pub open spec fn bulk(a: Seq<u8>) -> Seq<u8> {
    seq![36u8] + digits_of(a.len()) + crlf() + a + crlf()
}

/// The bulk strings of all arguments, in order.
pub open spec fn bulks(args: Seq<Seq<u8>>) -> Seq<u8>
    decreases args.len(),
{
    if args.len() == 0 {
        Seq::empty()
    } else {
        bulks(args.drop_last()) + bulk(args.last())
    }
}

/// A request frame: `*`, the argument count, CRLF, then each argument as a bulk string.
pub open spec fn frame(args: Seq<Seq<u8>>) -> Seq<u8> {
    seq![42u8] + digits_of(args.len()) + crlf() + bulks(args)
}

/// The condition on the key's existence under which `SET` applies.
#[derive(Debug, Clone, Copy, PartialEq, Eq)]
pub enum ExistOP {
    NX,
    XX,
}

pub open spec fn is_char_ci(c: char, lower: char) -> bool {
    c == lower || c as u32 + 32 == lower as u32
}

/// `s` spells the two letters `a`, `b` in any case.
pub open spec fn spells_ci(s: Seq<char>, a: char, b: char) -> bool {
    s.len() == 2 && is_char_ci(s[0], a) && is_char_ci(s[1], b)
}

impl ExistOP {
    /// The flag's keyword on the wire.
    pub open spec fn keyword(self) -> Seq<u8> {
        match self {
            ExistOP::NX => word("NX"@),
            ExistOP::XX => word("XX"@),
        }
    }

    /// Reads `nx` or `xx`, in any case.
    pub fn from_str(s: &str) -> (r: Result<ExistOP, String>)
        ensures
            spells_ci(s@, 'n', 'x') <==> r matches Ok(ExistOP::NX),
            spells_ci(s@, 'x', 'x') <==> r matches Ok(ExistOP::XX),
            r matches Err(m) ==> m@ == "unexpected string, 'NX' or 'XX' expected"@,
    {
        if s.unicode_len() == 2 {
            let a = s.get_char(0);
            let b = s.get_char(1);
            if (a == 'n' || a == 'N') && (b == 'x' || b == 'X') {
                return Ok(ExistOP::NX);
            }
            if (a == 'x' || a == 'X') && (b == 'x' || b == 'X') {
                return Ok(ExistOP::XX);
            }
        }
        Err(String::from_str("unexpected string, 'NX' or 'XX' expected"))
    }
}

/// The commands this client sends.
#[derive(Debug)]
pub enum Commands {
    /// test server status
    Ping,
    /// get string value
    Get { key: String },
    /// set a key with string value
    SetKey {
        key: String,
        value: String,
        /// expiration in seconds
        ex: Option<u32>,
        /// expiration in milliseconds
        px: Option<u32>,
        /// existence condition
        x: Option<ExistOP>,
    },
    /// increase by one
    Incr { key: String },
    /// get a range of a list
    Lrange { key: String, start: i64, stop: i64 },
    /// push values to a list
    Rpush { key: String, values: Vec<String> },
}

pub open spec fn optional_pair(kw: Seq<u8>, n: Option<u32>) -> Seq<Seq<u8>> {
    match n {
        Some(v) => seq![kw, digits_of(v as nat)],
        None => Seq::empty(),
    }
}

pub open spec fn words(values: Seq<String>) -> Seq<Seq<u8>> {
    values.map_values(|v: String| word(v@))
}

impl Commands {
    /// The command's arguments, keyword first.
    pub open spec fn args(&self) -> Seq<Seq<u8>> {
        match self {
            Commands::Ping => seq![word("PING"@)],
            Commands::Get { key } => seq![word("GET"@), word(key@)],
            Commands::SetKey { key, value, ex, px, x } => seq![word("SET"@), word(key@), word(value@)]
                + optional_pair(word("EX"@), *ex) + optional_pair(word("PX"@), *px) + match x {
                Some(f) => seq![f.keyword()],
                None => Seq::empty(),
            },
            Commands::Incr { key } => seq![word("INCR"@), word(key@)],
            Commands::Lrange { key, start, stop } => seq![
                word("LRANGE"@),
                word(key@),
                int_text(*start as int),
                int_text(*stop as int),
            ],
            Commands::Rpush { key, values } => seq![word("RPUSH"@), word(key@)] + words(values@),
        }
    }
}

/// Collects the arguments of one request.
struct CmdBuilder {
    args: Vec<Vec<u8>>,
}

impl CmdBuilder {
    spec fn view(&self) -> Seq<Seq<u8>> {
        self.args@.map_values(|a: Vec<u8>| a@)
    }

    fn new() -> (r: Self)
        ensures
            r.view() == Seq::<Seq<u8>>::empty(),
    {
        let r = CmdBuilder { args: Vec::new() };
        assert(r.view() =~= Seq::<Seq<u8>>::empty());
        r
    }

    fn push_bytes(&mut self, a: Vec<u8>)
        ensures
            final(self).view() == old(self).view().push(a@),
    {
        self.args.push(a);
        assert(self.view() =~= old(self).view().push(a@));
    }

    fn arg(self, a: &str) -> (r: Self)
        ensures
            r.view() == self.view().push(word(a@)),
    {
        let mut b = self;
        b.add_arg(a);
        b
    }

    fn add_arg(&mut self, a: &str)
        ensures
            final(self).view() == old(self).view().push(word(a@)),
    {
        let b = a.as_bytes();
        self.push_bytes(vstd::slice::slice_to_vec(b));
    }

    fn encode(&self) -> (r: Vec<u8>)
        ensures
            r@ == frame(self.view()),
    {
        let ghost args = self.view();
        let mut out: Vec<u8> = vec![42u8];
        append_bytes(&mut out, u64_text(self.args.len() as u64).as_slice());
        append_bytes(&mut out, [13u8, 10u8].as_slice());
        let mut i: usize = 0;
        while i < self.args.len()
            invariant
                0 <= i <= args.len(),
                args == self.view(),
                out@ == seq![42u8] + digits_of(args.len()) + crlf() + bulks(args.subrange(0, i as int)),
            decreases args.len() - i,
        {
            let a = &self.args[i];
            assert(a@ == args[i as int]);
            let ghost before = out@;
            out.push(36u8);
            append_bytes(&mut out, u64_text(a.len() as u64).as_slice());
            append_bytes(&mut out, [13u8, 10u8].as_slice());
            append_bytes(&mut out, a.as_slice());
            append_bytes(&mut out, [13u8, 10u8].as_slice());
            assert(args.subrange(0, i + 1).drop_last() =~= args.subrange(0, i as int));
            assert(out@ =~= before + bulk(args[i as int]));
            i += 1;
        }
        assert(args.subrange(0, args.len() as int) =~= args);
        out
    }
}

impl Commands {
    /// The request frame of this command.
    pub fn encode(&self) -> (r: Vec<u8>)
        ensures
            r@ == frame(self.args()),
    {
        let b = match self {
            Commands::Ping => CmdBuilder::new().arg("PING"),
            Commands::Get { key } => CmdBuilder::new().arg("GET").arg(key.as_str()),
            Commands::SetKey { key, value, ex, px, x } => {
                let mut b = CmdBuilder::new().arg("SET").arg(key.as_str()).arg(value.as_str());
                let ghost base = b.view();
                if let Some(e) = ex {
                    b.add_arg("EX");
                    b.push_bytes(u64_text(*e as u64));
                }
                assert(b.view() =~= base + optional_pair(word("EX"@), *ex));
                let ghost with_ex = b.view();
                if let Some(p) = px {
                    b.add_arg("PX");
                    b.push_bytes(u64_text(*p as u64));
                }
                assert(b.view() =~= with_ex + optional_pair(word("PX"@), *px));
                let ghost with_px = b.view();
                if let Some(f) = x {
                    match f {
                        ExistOP::NX => b.add_arg("NX"),
                        ExistOP::XX => b.add_arg("XX"),
                    }
                }
                assert(b.view() =~= with_px + match x {
                    Some(f) => seq![f.keyword()],
                    None => Seq::<Seq<u8>>::empty(),
                });
                b
            },
            Commands::Incr { key } => CmdBuilder::new().arg("INCR").arg(key.as_str()),
            Commands::Lrange { key, start, stop } => {
                let mut b = CmdBuilder::new().arg("LRANGE").arg(key.as_str());
                b.push_bytes(i64_text(*start));
                b.push_bytes(i64_text(*stop));
                b
            },
            Commands::Rpush { key, values } => {
                let mut b = CmdBuilder::new().arg("RPUSH").arg(key.as_str());
                let ghost base = b.view();
                let mut i: usize = 0;
                while i < values.len()
                    invariant
                        0 <= i <= values@.len(),
                        b.view() == base + words(values@.subrange(0, i as int)),
                    decreases values@.len() - i,
                {
                    b.add_arg(values[i].as_str());
                    assert(words(values@.subrange(0, i + 1)) =~= words(
                        values@.subrange(0, i as int),
                    ).push(word(values@[i as int]@)));
                    i += 1;
                }
                assert(values@.subrange(0, values@.len() as int) =~= values@);
                b
            },
        };
        assert(b.view() =~= self.args());
        b.encode()
    }

    /// The request frame of this command, in a buffer for the transport.
    pub fn to_bytes(&self) -> (r: bytes::BytesMut)
        ensures
            buffer_bytes(r) == frame(self.args()),
    {
        let v = self.encode();
        buffer_from(v.as_slice())
    }
}

} // verus!
