//! The memcached text protocol: the commands a client sends and what it makes of
//! the replies.

use vstd::prelude::*;

use crate::client::{opt_view, ProtocolKind, TargetSpec};
use crate::duration::Span;
use crate::text::{
    chars_of, decimal, format_u64, has_prefix, is_digit, is_space, is_word, lemma_decimal_digits,
    lemma_encode_utf8_concat, lemma_words_space_first, lemma_words_word_first, lossy_string,
    parse_u64, push_all, split_words, starts_with, string_from_chars, trim, trim_chars,
    unsigned_text_value, utf8_lossy, words,
};
use vstd::utf8::{decode_utf8, encode_utf8, valid_utf8};

verus! {

/// Builds clients that speak the memcached text protocol.
pub struct MemcachedClientFactory;

/// A memcached client bound to one address.
#[derive(Debug, Clone)]
pub struct MemcachedClient {
    pub at: String,
}

/// What can go wrong in a driver.
#[derive(Debug, Clone)]
pub enum DriverError {
    /// The factory was asked for a protocol it does not speak.
    UnsupportedProtocol,
    /// The server answered a line that the command does not accept; the line is
    /// kept without its surrounding whitespace.
    UnexpectedResponse { response: String },
}

/// The message of a driver error.
pub open spec fn driver_error_text(e: DriverError) -> Seq<char> {
    match e {
        DriverError::UnsupportedProtocol => "unsupported protocol for MemcachedClientFactory"@,
        DriverError::UnexpectedResponse { response } => "unexpected response: "@ + response@,
    }
}

impl DriverError {
    /// The message of this error.
    pub fn message(&self) -> (r: String)
        ensures
            r@ == driver_error_text(*self),
    {
        match self {
            DriverError::UnsupportedProtocol => {
                string_from_chars(&chars_of("unsupported protocol for MemcachedClientFactory"))
            },
            DriverError::UnexpectedResponse { response } => {
                let mut out = chars_of("unexpected response: ");
                push_all(&mut out, &chars_of(response.as_str()));
                string_from_chars(&out)
            },
        }
    }
}

impl MemcachedClientFactory {
    /// A client for `target`, when `protocol` is memcached.
    pub fn build(&self, protocol: ProtocolKind, target: TargetSpec) -> (r: Result<
        MemcachedClient,
        DriverError,
    >)
        ensures
            r is Ok <==> protocol == ProtocolKind::Memcached,
            r matches Ok(c) ==> c.at == target.address,
            r matches Err(e) ==> e is UnsupportedProtocol,
    {
        match protocol {
            ProtocolKind::Memcached => Ok(MemcachedClient { at: target.address }),
            _ => Err(DriverError::UnsupportedProtocol),
        }
    }
}

/// The expiry that a `set` command carries: the whole seconds of the time to live,
/// cut to 32 bits as `as u32` cuts them, or 0 without one.
pub open spec fn exptime_of(ttl: Option<Span>) -> u32 {
    match ttl {
        Some(d) => d.secs as u32,
        None => 0,
    }
}

/// The expiry of a `set` is the whole seconds of its time to live, cut to 32 bits:
/// exactly those seconds when they fit, and 0 only without a time to live or when
/// the seconds are a multiple of 2^32.
pub proof fn law_expiry_is_the_ttl_seconds(ttl: Option<Span>)
    ensures
        ttl is None ==> exptime_of(ttl) == 0,
        ttl matches Some(d) ==> exptime_of(ttl) as int == d.secs as int % 0x1_0000_0000,
        ttl matches Some(d) ==> (d.secs < 0x1_0000_0000 ==> exptime_of(ttl) == d.secs),
        exptime_of(ttl) == 0 <==> (ttl matches Some(d) ==> d.secs as int % 0x1_0000_0000 == 0),
{
    if let Some(d) = ttl {
        let x: u64 = d.secs;
        assert(x as u32 == x % 0x1_0000_0000) by (bit_vector);
    }
}

/// The expiry that a `set` command carries for `ttl`.
pub fn exptime(ttl: Option<Span>) -> (r: u32)
    ensures
        r == exptime_of(ttl),
{
    match ttl {
        Some(d) => d.secs as u32,
        None => 0,
    }
}

/// The number of bytes that `value` takes in UTF-8, as `str::len` gives it.
pub open spec fn byte_len(value: Seq<char>) -> usize {
    vstd::utf8::encode_utf8(value).len() as usize
}

/// The `set` command: key, flags 0, expiry, byte count, then the data block.
pub open spec fn set_command_text(key: Seq<char>, value: Seq<char>, exptime: u32) -> Seq<char> {
    "set "@ + key + " 0 "@ + decimal(exptime as nat) + " "@ + decimal(byte_len(value) as nat)
        + "\r\n"@ + value + "\r\n"@
}

/// The `set` command that stores `value` under `key`.
pub fn set_command(key: &str, value: &str, ttl: Option<Span>) -> (r: String)
    ensures
        r@ == set_command_text(key@, value@, exptime_of(ttl)),
{
    let expiry = exptime(ttl);
    let mut out = chars_of("set ");
    push_all(&mut out, &chars_of(key));
    push_all(&mut out, &chars_of(" 0 "));
    push_all(&mut out, &format_u64(expiry as u64));
    push_all(&mut out, &chars_of(" "));
    let n = value.len();
    push_all(&mut out, &format_u64(n as u64));
    push_all(&mut out, &chars_of("\r\n"));
    push_all(&mut out, &chars_of(value));
    push_all(&mut out, &chars_of("\r\n"));
    string_from_chars(&out)
}

/// The `get` command for one key.
pub open spec fn get_command_text(key: Seq<char>) -> Seq<char> {
    "get "@ + key + "\r\n"@
}

/// The `get` command that reads `key`.
pub fn get_command(key: &str) -> (r: String)
    ensures
        r@ == get_command_text(key@),
{
    let mut out = chars_of("get ");
    push_all(&mut out, &chars_of(key));
    push_all(&mut out, &chars_of("\r\n"));
    string_from_chars(&out)
}

/// The keys joined by single spaces, as `[String]::join(" ")` joins them.
pub open spec fn joined(keys: Seq<Seq<char>>) -> Seq<char>
    decreases keys.len(),
{
    if keys.len() == 0 {
        Seq::empty()
    } else if keys.len() == 1 {
        keys[0]
    } else {
        joined(keys.drop_last()) + " "@ + keys.last()
    }
}

/// The text of each string in `v`.
pub open spec fn texts(v: Seq<String>) -> Seq<Seq<char>> {
    v.map_values(|s: String| s@)
}

/// The `get` command that reads several keys at once.
pub open spec fn mget_command_text(keys: Seq<Seq<char>>) -> Seq<char> {
    "get "@ + joined(keys) + "\r\n"@
}

/// The `get` command that reads all of `keys` in one request.
pub fn mget_command(keys: &[String]) -> (r: String)
    ensures
        r@ == mget_command_text(texts(keys@)),
{
    let mut out = chars_of("get ");
    let ghost head = out@;
    let mut i: usize = 0;
    while i < keys.len()
        invariant
            i <= keys@.len(),
            head == "get "@,
            out@ == head + joined(texts(keys@).take(i as int)),
        decreases keys.len() - i,
    {
        let ghost before = out@;
        if i > 0 {
            push_all(&mut out, &chars_of(" "));
        }
        push_all(&mut out, &chars_of(keys[i].as_str()));
        proof {
            let t = texts(keys@);
            assert(t.take(i + 1).drop_last() =~= t.take(i as int));
            assert(t.take(i + 1).last() == keys@[i as int]@);
            if i == 0 {
                assert(joined(t.take(0)) =~= Seq::<char>::empty());
                assert(out@ =~= head + joined(t.take(1)));
            } else {
                assert(out@ =~= head + joined(t.take(i + 1)));
            }
        }
        i = i + 1;
    }
    assert(texts(keys@).take(keys@.len() as int) =~= texts(keys@));
    push_all(&mut out, &chars_of("\r\n"));
    string_from_chars(&out)
}

/// The `delete` command for one key.
pub open spec fn delete_command_text(key: Seq<char>) -> Seq<char> {
    "delete "@ + key + "\r\n"@
}

/// The `delete` command that removes `key`.
pub fn delete_command(key: &str) -> (r: String)
    ensures
        r@ == delete_command_text(key@),
{
    let mut out = chars_of("delete ");
    push_all(&mut out, &chars_of(key));
    push_all(&mut out, &chars_of("\r\n"));
    string_from_chars(&out)
}

/// What the first reply line to a `set` says: stored, or an unexpected response.
pub fn store_reply(line: &str) -> (r: Result<(), DriverError>)
    ensures
        r is Ok <==> starts_with(line@, "STORED"@),
        r matches Err(e) ==> e matches DriverError::UnexpectedResponse { response } && response@
            == trim(line@),
{
    let cs = chars_of(line);
    if has_prefix(&cs, &chars_of("STORED")) {
        Ok(())
    } else {
        Err(DriverError::UnexpectedResponse { response: string_from_chars(&trim_chars(&cs)) })
    }
}

/// What the first reply line to a `delete` says: deleted or not found are both
/// fine, anything else is an unexpected response.
pub fn delete_reply(line: &str) -> (r: Result<(), DriverError>)
    ensures
        r is Ok <==> starts_with(line@, "DELETED"@) || starts_with(line@, "NOT_FOUND"@),
        r matches Err(e) ==> e matches DriverError::UnexpectedResponse { response } && response@
            == trim(line@),
{
    let cs = chars_of(line);
    if has_prefix(&cs, &chars_of("DELETED")) || has_prefix(&cs, &chars_of("NOT_FOUND")) {
        Ok(())
    } else {
        Err(DriverError::UnexpectedResponse { response: string_from_chars(&trim_chars(&cs)) })
    }
}

/// What the client does next while it reads a retrieval reply.
#[derive(Debug, Clone, Copy, PartialEq, Eq, Structural)]
pub enum ReplyStep {
    /// Read the next line.
    ReadLine,
    /// Read a data block of `len` bytes and the two bytes that end it.
    ReadValue { len: usize },
    /// The reply is over.
    Finished,
}

/// The byte count that a `VALUE` line announces, read as `parse::<usize>()` reads
/// it, with 0 where that fails.
pub open spec fn announced_len(w: Seq<char>) -> usize {
    match unsigned_text_value(w) {
        Some(v) => if v <= usize::MAX {
            v as usize
        } else {
            0
        },
        None => 0,
    }
}

/// A line that ends a retrieval reply: the end of the stream (an empty read) or a
/// line that begins with `END`.
pub open spec fn ends_reply(line: Seq<char>) -> bool {
    line.len() == 0 || starts_with(line, "END"@)
}

/// A `VALUE <key> <flags> <bytes>` line with at least four words.
pub open spec fn value_header(line: Seq<char>) -> bool {
    starts_with(line, "VALUE "@) && words(line).len() >= 4
}

/// The value that the last hit for `key` carries, if any hit names it.
pub open spec fn last_value(hits: Seq<(Seq<char>, Seq<char>)>, key: Seq<char>) -> Option<
    Seq<char>,
>
    decreases hits.len(),
{
    if hits.len() == 0 {
        None
    } else if hits.last().0 == key {
        Some(hits.last().1)
    } else {
        last_value(hits.drop_last(), key)
    }
}

/// A requested key gets a value exactly when some hit names that very key (the whole
/// key text), and the value is the one that the last such hit carries: no hit for
/// another key ever supplies it.
pub proof fn law_key_gets_its_own_last_hit(hits: Seq<(Seq<char>, Seq<char>)>, key: Seq<char>)
    ensures
        last_value(hits, key) is Some <==> exists|i: int| 0 <= i < hits.len() && #[trigger] hits[i].0 == key,
        last_value(hits, key) matches Some(v) ==> exists|i: int|
            0 <= i < hits.len() && #[trigger] hits[i].0 == key && hits[i].1 == v && forall|j: int|
                i < j < hits.len() ==> #[trigger] hits[j].0 != key,
    decreases hits.len(),
{
    if hits.len() > 0 {
        let n = hits.len() - 1;
        law_key_gets_its_own_last_hit(hits.drop_last(), key);
        if hits.last().0 == key {
            assert(hits[n].0 == key);
        } else {
            assert(hits[n].0 != key);
            assert forall|i: int| 0 <= i < n implies hits.drop_last()[i] == hits[i] by {}
            if exists|i: int| 0 <= i < hits.len() && #[trigger] hits[i].0 == key {
                let i = choose|i: int| 0 <= i < hits.len() && #[trigger] hits[i].0 == key;
                assert(hits.drop_last()[i].0 == key);
            }
            if let Some(v) = last_value(hits, key) {
                let i = choose|i: int|
                    0 <= i < hits.drop_last().len() && #[trigger] hits.drop_last()[i].0 == key
                        && hits.drop_last()[i].1 == v && forall|j: int|
                        i < j < hits.drop_last().len() ==> #[trigger] hits.drop_last()[j].0 != key;
                assert(hits[i].0 == key && hits[i].1 == v);
                assert forall|j: int| i < j < hits.len() implies #[trigger] hits[j].0 != key by {
                    if j < n {
                        assert(hits.drop_last()[j].0 != key);
                    }
                }
            }
        }
    }
}

/// The value of the last hit, whatever key it names.
pub open spec fn last_hit(hits: Seq<(Seq<char>, Seq<char>)>) -> Option<Seq<char>> {
    if hits.len() == 0 {
        None
    } else {
        Some(hits.last().1)
    }
}

/// Reads `count` of `digits`, as `parse::<usize>().unwrap_or(0)` does.
fn announced_len_of(digits: &[char]) -> (r: usize)
    ensures
        r == announced_len(digits@),
{
    match parse_u64(digits) {
        Some(v) => {
            if v <= usize::MAX as u64 {
                v as usize
            } else {
                0
            }
        },
        None => 0,
    }
}

/// The state of a client that reads the reply to a `get`: the hits read so far, in
/// order, and the key of a data block still to come.
pub struct RetrievalReply {
    hits: Vec<(String, String)>,
    pending: Option<String>,
}

impl RetrievalReply {
    /// The hits read so far, as key and value texts.
    pub closed spec fn hits(&self) -> Seq<(Seq<char>, Seq<char>)> {
        self.hits@.map_values(|e: (String, String)| (e.0@, e.1@))
    }

    /// The key whose data block is to be read next, if one is.
    pub closed spec fn awaiting(&self) -> Option<Seq<char>> {
        opt_view(self.pending)
    }

    /// A reply of which nothing has been read yet.
    pub fn new() -> (r: RetrievalReply)
        ensures
            r.hits() == Seq::<(Seq<char>, Seq<char>)>::empty(),
            r.awaiting() is None,
    {
        let r = RetrievalReply { hits: Vec::new(), pending: None };
        assert(r.hits() =~= Seq::<(Seq<char>, Seq<char>)>::empty());
        r
    }

    /// Whether a data block is to be read next.
    pub fn awaiting_value(&self) -> (b: bool)
        ensures
            b == self.awaiting() is Some,
    {
        self.pending.is_some()
    }

    /// Takes one reply line; an empty `line` stands for the end of the stream.
    pub fn on_line(&mut self, line: &str) -> (r: ReplyStep)
        requires
            old(self).awaiting() is None,
        ensures
            final(self).hits() == old(self).hits(),
            ends_reply(line@) ==> r == ReplyStep::Finished && final(self).awaiting() is None,
            !ends_reply(line@) && value_header(line@) ==> r == (ReplyStep::ReadValue {
                len: announced_len(words(line@)[3]),
            }) && final(self).awaiting() == Some(words(line@)[1]),
            !ends_reply(line@) && !value_header(line@) ==> r == ReplyStep::ReadLine
                && final(self).awaiting() is None,
    {
        let cs = chars_of(line);
        if cs.len() == 0 || has_prefix(&cs, &chars_of("END")) {
            return ReplyStep::Finished;
        }
        if has_prefix(&cs, &chars_of("VALUE ")) {
            let parts = split_words(&cs);
            proof {
                assert(parts@.map_values(|w: Vec<char>| w@).len() == parts@.len());
            }
            if parts.len() >= 4 {
                proof {
                    assert(parts@.map_values(|w: Vec<char>| w@)[1] == parts@[1]@);
                    assert(parts@.map_values(|w: Vec<char>| w@)[3] == parts@[3]@);
                }
                let len = announced_len_of(&parts[3]);
                self.pending = Some(string_from_chars(&parts[1]));
                return ReplyStep::ReadValue { len };
            }
        }
        ReplyStep::ReadLine
    }

    /// Takes the data block announced by the last `VALUE` line.
    pub fn on_value(&mut self, data: &[u8])
        requires
            old(self).awaiting() is Some,
        ensures
            final(self).hits() == old(self).hits().push(
                (old(self).awaiting()->0, utf8_lossy(data@)),
            ),
            valid_utf8(data@) ==> final(self).hits().last().1 == decode_utf8(data@),
            final(self).awaiting() is None,
    {
        let key = match self.pending.take() {
            Some(k) => k,
            None => String::new(),
        };
        let value = lossy_string(data);
        let ghost before = self.hits@;
        self.hits.push((key, value));
        assert(self.hits@.map_values(|e: (String, String)| (e.0@, e.1@)) =~= before.map_values(
            |e: (String, String)| (e.0@, e.1@),
        ).push((key@, value@)));
    }

    /// What a one-key `get` gives: the value of the last hit, if any.
    pub fn get_result(&self) -> (r: Option<String>)
        ensures
            opt_view(r) == last_hit(self.hits()),
    {
        let n = self.hits.len();
        if n == 0 {
            None
        } else {
            Some(self.hits[n - 1].1.clone())
        }
    }

    /// What a multi-key `get` gives: for each requested key, in order, the value of
    /// the last hit that names it, if any.
    pub fn mget_result(&self, keys: &[String]) -> (r: Vec<Option<String>>)
        ensures
            r@.len() == keys@.len(),
            forall|i: int|
                0 <= i < keys@.len() ==> opt_view(#[trigger] r@[i]) == last_value(
                    self.hits(),
                    keys@[i]@,
                ),
    {
        let mut out: Vec<Option<String>> = Vec::new();
        let mut i: usize = 0;
        while i < keys.len()
            invariant
                i <= keys@.len(),
                out@.len() == i,
                forall|j: int|
                    0 <= j < i ==> opt_view(#[trigger] out@[j]) == last_value(
                        self.hits(),
                        keys@[j]@,
                    ),
            decreases keys.len() - i,
        {
            let found = self.lookup(&keys[i]);
            out.push(found);
            i = i + 1;
        }
        out
    }

    /// The value of the last hit that names `key`.
    fn lookup(&self, key: &String) -> (r: Option<String>)
        ensures
            opt_view(r) == last_value(self.hits(), key@),
    {
        let mut k: usize = self.hits.len();
        assert(self.hits().take(k as int) =~= self.hits());
        while k > 0
            invariant
                k <= self.hits@.len(),
                last_value(self.hits(), key@) == last_value(self.hits().take(k as int), key@),
            decreases k,
        {
            let ghost h = self.hits().take(k as int);
            assert(h.last() == (self.hits@[k - 1].0@, self.hits@[k - 1].1@));
            assert(h.drop_last() =~= self.hits().take(k - 1));
            if self.hits[k - 1].0 == *key {
                return Some(self.hits[k - 1].1.clone());
            }
            k = k - 1;
        }
        assert(self.hits().take(0) =~= Seq::<(Seq<char>, Seq<char>)>::empty());
        None
    }
}

/// The part of a `set` command before its data block.
pub open spec fn set_header_text(key: Seq<char>, value: Seq<char>, exptime: u32) -> Seq<char> {
    "set "@ + key + " 0 "@ + decimal(exptime as nat) + " "@ + decimal(byte_len(value) as nat)
        + "\r\n"@
}

/// The line a server sends before the data block of a hit.
pub open spec fn value_line_text(key: Seq<char>, flags: nat, len: nat) -> Seq<char> {
    "VALUE "@ + key + " "@ + decimal(flags) + " "@ + decimal(len) + "\r\n"@
}

proof fn lemma_decimal_is_word(n: nat)
    ensures
        is_word(decimal(n)),
        unsigned_text_value(decimal(n)) == Some(n),
{
    lemma_decimal_digits(n);
    assert forall|i: int| 0 <= i < decimal(n).len() implies !is_space(#[trigger] decimal(n)[i]) by {
        assert(is_digit(decimal(n)[i]));
    }
}

/// What a client writes is what it reads back: a `set` command announces exactly
/// the number of bytes of its data block, and those bytes are the value in UTF-8;
/// when a server answers a `get` with the line `VALUE <key> <flags> <count>` and
/// those bytes, the reply reader takes the line as a hit for the key, asks for that
/// many bytes, and the bytes read as text are the value again. The line `END` ends
/// the reply.
pub proof fn law_stored_value_reads_back(key: Seq<char>, value: Seq<char>, exptime: u32, flags: u32)
    requires
        is_word(key),
        encode_utf8(value).len() <= usize::MAX,
    ensures
        encode_utf8(set_command_text(key, value, exptime)) == encode_utf8(
            set_header_text(key, value, exptime),
        ) + encode_utf8(value) + encode_utf8("\r\n"@),
        byte_len(value) == encode_utf8(value).len(),
        !ends_reply(value_line_text(key, flags as nat, byte_len(value) as nat)),
        value_header(value_line_text(key, flags as nat, byte_len(value) as nat)),
        words(value_line_text(key, flags as nat, byte_len(value) as nat))[1] == key,
        announced_len(words(value_line_text(key, flags as nat, byte_len(value) as nat))[3])
            == encode_utf8(value).len(),
        valid_utf8(encode_utf8(value)),
        decode_utf8(encode_utf8(value)) == value,
        ends_reply("END\r\n"@),
{
    broadcast use vstd::utf8::encode_utf8_valid_utf8, vstd::utf8::encode_utf8_decode_utf8;

    let n = encode_utf8(value).len();
    let header = set_header_text(key, value, exptime);
    assert(set_command_text(key, value, exptime) =~= header + value + "\r\n"@);
    lemma_encode_utf8_concat(header + value, "\r\n"@);
    lemma_encode_utf8_concat(header, value);
    reveal_strlit("VALUE ");
    reveal_strlit(" ");
    reveal_strlit("\r\n");
    reveal_strlit("END\r\n");
    reveal_strlit("END");
    let len = byte_len(value) as nat;
    assert(len == n);
    lemma_decimal_is_word(flags as nat);
    lemma_decimal_is_word(len);
    let crlf = "\r\n"@;
    assert(crlf =~= seq!['\r'] + seq!['\n']);
    assert(is_space('\r') && is_space('\n') && is_space(' '));
    lemma_words_space_first('\r', seq!['\n']);
    lemma_words_space_first('\n', Seq::<char>::empty());
    assert(seq!['\n'] =~= seq!['\n'] + Seq::<char>::empty());
    assert(words(Seq::<char>::empty()) =~= Seq::<Seq<char>>::empty());
    assert(words(crlf) =~= Seq::<Seq<char>>::empty());
    let w4 = decimal(len) + crlf;
    lemma_words_word_first(decimal(len), crlf);
    let s3 = seq![' '] + w4;
    lemma_words_space_first(' ', w4);
    let w3 = decimal(flags as nat) + s3;
    lemma_words_word_first(decimal(flags as nat), s3);
    let s2 = seq![' '] + w3;
    lemma_words_space_first(' ', w3);
    let w2 = key + s2;
    lemma_words_word_first(key, s2);
    let s1 = seq![' '] + w2;
    lemma_words_space_first(' ', w2);
    let v5 = seq!['V', 'A', 'L', 'U', 'E'];
    assert forall|i: int| 0 <= i < v5.len() implies !is_space(#[trigger] v5[i]) by {}
    let w1 = v5 + s1;
    lemma_words_word_first(v5, s1);
    let line = value_line_text(key, flags as nat, len);
    assert(line =~= w1);
    assert(words(line) =~= seq![v5, key, decimal(flags as nat), decimal(len)]);
    assert(line.take(6) =~= "VALUE "@);
    assert(line[0] == 'V');
    assert(!starts_with(line, "END"@)) by {
        if starts_with(line, "END"@) {
            assert(line.take(3)[0] == 'E');
        }
    }
    assert("END\r\n"@.take(3) =~= "END"@);
}

} // verus!
