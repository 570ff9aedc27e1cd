//! Messages: fixed-size byte buffers with a cursor, which train scripts
//! fill and read field by field and then hand over to the other side.
//!
//! A message owns its bytes until it is sent; after that it holds none,
//! and every read yields nothing and every write is ignored. Integers are
//! stored least significant byte first.
use vstd::prelude::*;
use crate::text::{decimal, push_decimal};
use vstd::string::StringExecFns;
use crate::encoding::{
    as_signed, as_unsigned, byte_range, decode_le, encode_le, lemma_byte_ranges, lemma_le_bytes_len,
    lemma_le_value_bound, le_bytes, le_value,
};

verus! {

/// What a message holds: its bytes (none once sent) and its cursor.
pub struct MsgView {
    pub data: Option<Seq<u8>>,
    pub offset: nat,
}

/// `d` with the bytes from `at` on replaced by `s`.
pub open spec fn splice(d: Seq<u8>, at: nat, s: Seq<u8>) -> Seq<u8> {
    d.subrange(0, at as int) + s + d.subrange((at + s.len()) as int, d.len() as int)
}

/// The smaller of two numbers.
pub open spec fn min_nat(a: nat, b: nat) -> nat {
    if a <= b {
        a
    } else {
        b
    }
}

impl MsgView {
    /// The cursor never passes the end of the bytes, and their number fits
    /// in a `usize`.
    pub open spec fn valid(self) -> bool {
        match self.data {
            Some(d) => self.offset <= d.len() <= usize::MAX,
            None => true,
        }
    }

    /// How many bytes a request for `len` bytes at the cursor covers: `len`,
    /// cut at the end of the message.
    pub open spec fn span(self, len: nat) -> nat {
        match self.data {
            Some(d) => min_nat(len, (d.len() - self.offset) as nat),
            None => 0,
        }
    }

    /// The bytes that reading `len` bytes yields.
    pub open spec fn read_data_result(self, len: nat) -> Option<Seq<u8>> {
        match self.data {
            Some(d) => Some(d.subrange(self.offset as int, (self.offset + self.span(len)) as int)),
            None => None,
        }
    }

    /// The message after reading `len` bytes.
    pub open spec fn after_read_data(self, len: nat) -> MsgView {
        MsgView { data: self.data, offset: self.offset + self.span(len) }
    }

    /// The message after writing `val` at the cursor: as much of `val` as
    /// fits before the end replaces the bytes there, and the cursor moves
    /// past it.
    pub open spec fn after_write_data(self, val: Seq<u8>) -> MsgView {
        match self.data {
            Some(d) => {
                let n = self.span(val.len());
                MsgView { data: Some(splice(d, self.offset, val.subrange(0, n as int))), offset: self.offset + n }
            },
            None => self,
        }
    }

    /// The message after moving its cursor to `pos`, cut at the end.
    pub open spec fn after_seek(self, pos: nat) -> MsgView {
        match self.data {
            Some(d) => MsgView { data: self.data, offset: min_nat(pos, d.len()) },
            None => self,
        }
    }

    /// The message once its bytes were handed over.
    pub open spec fn after_take(self) -> MsgView {
        MsgView { data: None, offset: self.offset }
    }

    /// An integer of `w` bytes can be read or written at the cursor: the
    /// message holds bytes and the cursor lies strictly before the last
    /// `w` of them.
    pub open spec fn word_fits(self, w: nat) -> bool {
        match self.data {
            Some(d) => self.offset < d.len() - w,
            None => false,
        }
    }

    /// A `w`-byte access is defined on this message: if it holds bytes,
    /// it holds at least `w`.
    pub open spec fn word_defined(self, w: nat) -> bool {
        match self.data {
            Some(d) => d.len() >= w,
            None => true,
        }
    }

    /// The unsigned integer of `w` bytes that a read at the cursor yields.
    pub open spec fn word_at(self, w: nat) -> Option<nat> {
        match self.data {
            Some(d) => if self.word_fits(w) {
                Some(le_value(d.subrange(self.offset as int, (self.offset + w) as int)))
            } else {
                None
            },
            None => None,
        }
    }

    /// The message after reading an integer of `w` bytes.
    pub open spec fn after_read_word(self, w: nat) -> MsgView {
        if self.word_fits(w) {
            MsgView { data: self.data, offset: self.offset + w }
        } else {
            self
        }
    }

    /// The message after writing the `w`-byte pattern `u` at the cursor.
    pub open spec fn after_write_word(self, w: nat, u: nat) -> MsgView {
        match self.data {
            Some(d) => if self.word_fits(w) {
                MsgView { data: Some(splice(d, self.offset, le_bytes(u, w))), offset: self.offset + w }
            } else {
                self
            },
            None => self,
        }
    }
}

/// The largest message that `Msg::create_message` makes: 16 MiB.
pub const MAX_MESSAGE_SIZE: usize = 16777216;

/// A message of `size` bytes was asked for, more than
/// [`MAX_MESSAGE_SIZE`].
#[derive(Clone, Copy, Debug, PartialEq, Eq, Structural)]
pub struct MessageTooLarge {
    pub size: usize,
}

impl MessageTooLarge {
    /// The error text shown to the script that asked for the message.
    pub fn message(&self) -> (text: String)
        ensures
            text@ == "Maximum size 16 MB, Entered size: "@ + decimal(self.size as nat) + " bytes"@,
    {
        let mut text = String::from_str("Maximum size 16 MB, Entered size: ");
        push_decimal(&mut text, self.size);
        text.append(" bytes");
        text
    }
}

/// A message: a byte buffer and a cursor into it.
pub struct Msg {
    data: Option<Vec<u8>>,
    offset: usize,
}

impl View for Msg {
    type V = MsgView;

    closed spec fn view(&self) -> MsgView {
        MsgView {
            data: match self.data {
                Some(d) => Some(d@),
                None => None,
            },
            offset: self.offset as nat,
        }
    }
}

/// Copies `d[at..at + n]`.
fn copy_out(d: &Vec<u8>, at: usize, n: usize) -> (out: Vec<u8>)
    requires
        at + n <= d@.len(),
    ensures
        out@ == d@.subrange(at as int, at + n),
{
    let mut out: Vec<u8> = Vec::new();
    let mut i: usize = 0;
    let len = d.len();
    while i < n
        invariant
            i <= n,
            len == d@.len(),
            at + n <= d@.len(),
            out@ == d@.subrange(at as int, at + i),
        decreases n - i,
    {
        out.push(d[at + i]);
        i = i + 1;
        assert(out@ =~= d@.subrange(at as int, at + i));
    }
    out
}

/// Overwrites `d[at..at + n]` with `src[..n]`.
fn copy_in(d: &mut Vec<u8>, at: usize, src: &[u8], n: usize)
    requires
        at + n <= old(d)@.len(),
        n <= src@.len(),
    ensures
        final(d)@ == splice(old(d)@, at as nat, src@.subrange(0, n as int)),
{
    let ghost start = d@;
    let len = d.len();
    let mut i: usize = 0;
    while i < n
        invariant
            i <= n,
            len == start.len(),
            n <= src@.len(),
            at + n <= start.len(),
            d@.len() == start.len(),
            forall|j: int| 0 <= j < i ==> #[trigger] d@[at + j] == src@[j],
            forall|j: int| 0 <= j < d@.len() && !(at <= j < at + i) ==> #[trigger] d@[j] == start[j],
        decreases n - i,
    {
        d.set(at + i, src[i]);
        i = i + 1;
    }
    let ghost want = splice(start, at as nat, src@.subrange(0, n as int));
    assert forall|j: int| 0 <= j < d@.len() implies d@[j] == want[j] by {
        if at <= j < at + n {
            assert(d@[at + (j - at)] == src@[j - at]);
        }
    }
    assert(d@ =~= want);
}

impl Msg {
    #[verifier::type_invariant]
    spec fn cursor_in_bounds(self) -> bool {
        match self.data {
            Some(d) => self.offset <= d@.len() <= usize::MAX,
            None => true,
        }
    }

    /// A new message of `size` zero bytes with its cursor at the start.
    pub fn create_msg(size: usize) -> (msg: Msg)
        ensures
            msg@ == (MsgView { data: Some(Seq::new(size as nat, |_i: int| 0u8)), offset: 0 }),
            msg@.valid(),
    {
        let mut d: Vec<u8> = Vec::new();
        let mut i: usize = 0;
        while i < size
            invariant
                i <= size,
                d@ == Seq::new(i as nat, |_i: int| 0u8),
            decreases size - i,
        {
            d.push(0u8);
            i = i + 1;
            assert(d@ =~= Seq::new(i as nat, |_i: int| 0u8));
        }
        Msg { data: Some(d), offset: 0 }
    }

    /// A new message of `size` zero bytes, bounded: none for size zero,
    /// and an error above [`MAX_MESSAGE_SIZE`]. This is the older,
    /// bounded form of message creation; `create_msg` makes a message of
    /// any size.
    pub fn create_message(size: usize) -> (result: Result<Option<Msg>, MessageTooLarge>)
        ensures
            size > MAX_MESSAGE_SIZE ==> result == Err::<Option<Msg>, MessageTooLarge>(
                MessageTooLarge { size },
            ),
            size == 0 ==> result matches Ok(None),
            0 < size <= MAX_MESSAGE_SIZE ==> (result matches Ok(Some(msg)) && msg@ == (MsgView {
                data: Some(Seq::new(size as nat, |_i: int| 0u8)),
                offset: 0,
            })),
    {
        if size > MAX_MESSAGE_SIZE {
            return Err(MessageTooLarge { size });
        }
        if size == 0 {
            return Ok(None);
        }
        Ok(Some(Msg::create_msg(size)))
    }

    /// A received message: the given bytes with the cursor at the start.
    pub fn from_data(data: Vec<u8>) -> (msg: Msg)
        ensures
            msg@ == (MsgView { data: Some(data@), offset: 0 }),
            msg@.valid(),
    {
        let len = data.len();
        assert(data@.len() == len);
        Msg { data: Some(data), offset: 0 }
    }

    /// The number of bytes the message holds, if it still holds any.
    pub fn data_len(&self) -> (len: Option<usize>)
        ensures
            match self@.data {
                Some(d) => len is Some && len.unwrap() as nat == d.len(),
                None => len is None,
            },
            self@.valid(),
    {
        proof {
            use_type_invariant(self);
        }
        match &self.data {
            Some(d) => Some(d.len()),
            None => None,
        }
    }

    /// The cursor.
    pub fn tell(&self) -> (pos: usize)
        ensures
            pos == self@.offset,
            self@.valid(),
    {
        proof {
            use_type_invariant(self);
        }
        self.offset
    }

    /// Moves the cursor to `pos`, or to the end if `pos` lies beyond it.
    /// A sent message is left as it is.
    pub fn seek(&mut self, pos: usize)
        ensures
            final(self)@ == old(self)@.after_seek(pos as nat),
            final(self)@.valid(),
    {
        proof {
            use_type_invariant(&*self);
        }
        let len = match &self.data {
            Some(d) => Some(d.len()),
            None => None,
        };
        if let Some(len) = len {
            self.offset = if pos < len { pos } else { len };
        }
    }

    /// Hands over the bytes, leaving the message without any.
    pub fn take_data(&mut self) -> (data: Option<Vec<u8>>)
        ensures
            final(self)@ == old(self)@.after_take(),
            match old(self)@.data {
                Some(d) => data is Some && data.unwrap()@ == d,
                None => data is None,
            },
    {
        proof {
            use_type_invariant(&*self);
        }
        let mut data: Option<Vec<u8>> = None;
        std::mem::swap(&mut data, &mut self.data);
        data
    }

    /// Reads up to `len` bytes at the cursor, stopping at the end, and
    /// moves the cursor past them; a sent message yields nothing.
    pub fn read_data(&mut self, len: usize) -> (bytes: Option<Vec<u8>>)
        requires
            old(self)@.data is Some ==> old(self)@.offset + len <= usize::MAX,
        ensures
            final(self)@ == old(self)@.after_read_data(len as nat),
            final(self)@.valid(),
            match old(self)@.read_data_result(len as nat) {
                Some(s) => bytes is Some && bytes.unwrap()@ == s,
                None => bytes is None,
            },
    {
        proof {
            use_type_invariant(&*self);
        }
        let offset = self.offset;
        match &self.data {
            None => None,
            Some(d) => {
                let size = d.len();
                let final_size = if len + offset > size {
                    size - offset
                } else {
                    len
                };
                let out = copy_out(d, offset, final_size);
                self.offset = offset + final_size;
                Some(out)
            },
        }
    }

    /// Writes as much of `val` as fits at the cursor and moves the cursor
    /// past it; a sent message is left as it is.
    pub fn write_data(&mut self, val: &[u8])
        requires
            old(self)@.data is Some ==> old(self)@.offset + val@.len() <= usize::MAX,
        ensures
            final(self)@ == old(self)@.after_write_data(val@),
            final(self)@.valid(),
    {
        proof {
            use_type_invariant(&*self);
        }
        let offset = self.offset;
        let mut taken: Option<Vec<u8>> = None;
        std::mem::swap(&mut taken, &mut self.data);
        if let Some(mut d) = taken {
            let size = d.len();
            let size_data = val.len();
            let final_size = if size_data + offset > size {
                size - offset
            } else {
                size_data
            };
            copy_in(&mut d, offset, val, final_size);
            self.data = Some(d);
            self.offset = offset + final_size;
        }
    }

    /// Reads the `w`-byte unsigned integer at the cursor and moves the
    /// cursor past it, when it lies strictly before the last `w` bytes.
    fn read_word(&mut self, w: usize) -> (value: Option<u32>)
        requires
            w == 1 || w == 2 || w == 4,
            old(self)@.word_defined(w as nat),
        ensures
            final(self)@ == old(self)@.after_read_word(w as nat),
            final(self)@.valid(),
            match old(self)@.word_at(w as nat) {
                Some(u) => value == Some(u as u32) && u < byte_range(w as nat),
                None => value is None,
            },
    {
        proof {
            use_type_invariant(&*self);
        }
        let offset = self.offset;
        match &self.data {
            None => None,
            Some(d) => {
                if offset >= d.len() - w {
                    None
                } else {
                    let bytes = copy_out(d, offset, w);
                    let value = decode_le(&bytes);
                    proof {
                        lemma_le_value_bound(bytes@);
                    }
                    self.offset = offset + w;
                    Some(value)
                }
            },
        }
    }

    /// Writes the `w`-byte pattern `u` at the cursor and moves the cursor
    /// past it, when it lies strictly before the last `w` bytes.
    fn write_word(&mut self, w: usize, u: u32)
        requires
            w == 1 || w == 2 || w == 4,
            u < byte_range(w as nat),
            old(self)@.word_defined(w as nat),
        ensures
            final(self)@ == old(self)@.after_write_word(w as nat, u as nat),
            final(self)@.valid(),
    {
        proof {
            use_type_invariant(&*self);
        }
        let offset = self.offset;
        let mut taken: Option<Vec<u8>> = None;
        std::mem::swap(&mut taken, &mut self.data);
        if let Some(mut d) = taken {
            if offset >= d.len() - w {
                self.data = Some(d);
            } else {
                let bytes = encode_le(u, w);
                proof {
                    lemma_le_bytes_len(u as nat, w as nat);
                    assert(bytes@.subrange(0, w as int) =~= bytes@);
                }
                copy_in(&mut d, offset, bytes.as_slice(), w);
                self.data = Some(d);
                self.offset = offset + w;
            }
        }
    }

    /// Reads the signed 8-bit integer at the cursor and moves the cursor past it;
    /// nothing is read when the cursor is not strictly before the last
    /// 1 byte(s), or the message was sent.
    pub fn read_int8(&mut self) -> (value: Option<i8>)
        requires
            old(self)@.word_defined(1),
        ensures
            final(self)@ == old(self)@.after_read_word(1),
            final(self)@.valid(),
            match old(self)@.word_at(1) {
                Some(u) => value matches Some(x) && x as int == as_signed(u, 1),
                None => value is None,
            },
    {
        proof {
            lemma_byte_ranges();
        }
        match self.read_word(1) {
            Some(u) => if u < 128 {
                Some(u as i8)
            } else {
                Some((u as i64 - 256) as i8)
            },
            None => None,
        }
    }

    /// Writes `value` as a signed 8-bit integer at the cursor and moves the cursor past
    /// it; nothing is written when the cursor is not strictly before the
    /// last 1 byte(s), or the message was sent.
    pub fn write_int8(&mut self, value: i8)
        requires
            old(self)@.word_defined(1),
        ensures
            final(self)@ == old(self)@.after_write_word(1, as_unsigned(value as int, 1)),
            final(self)@.valid(),
    {
        proof {
            lemma_byte_ranges();
        }
        let u: u32 = if value >= 0 {
            value as u32
        } else {
            (value as i64 + 256) as u32
        };
        self.write_word(1, u);
    }

    /// Reads the signed 16-bit integer at the cursor and moves the cursor past it;
    /// nothing is read when the cursor is not strictly before the last
    /// 2 byte(s), or the message was sent.
    pub fn read_int16(&mut self) -> (value: Option<i16>)
        requires
            old(self)@.word_defined(2),
        ensures
            final(self)@ == old(self)@.after_read_word(2),
            final(self)@.valid(),
            match old(self)@.word_at(2) {
                Some(u) => value matches Some(x) && x as int == as_signed(u, 2),
                None => value is None,
            },
    {
        proof {
            lemma_byte_ranges();
        }
        match self.read_word(2) {
            Some(u) => if u < 32768 {
                Some(u as i16)
            } else {
                Some((u as i64 - 65536) as i16)
            },
            None => None,
        }
    }

    /// Writes `value` as a signed 16-bit integer at the cursor and moves the cursor past
    /// it; nothing is written when the cursor is not strictly before the
    /// last 2 byte(s), or the message was sent.
    pub fn write_int16(&mut self, value: i16)
        requires
            old(self)@.word_defined(2),
        ensures
            final(self)@ == old(self)@.after_write_word(2, as_unsigned(value as int, 2)),
            final(self)@.valid(),
    {
        proof {
            lemma_byte_ranges();
        }
        let u: u32 = if value >= 0 {
            value as u32
        } else {
            (value as i64 + 65536) as u32
        };
        self.write_word(2, u);
    }

    /// Reads the signed 32-bit integer at the cursor and moves the cursor past it;
    /// nothing is read when the cursor is not strictly before the last
    /// 4 byte(s), or the message was sent.
    pub fn read_int32(&mut self) -> (value: Option<i32>)
        requires
            old(self)@.word_defined(4),
        ensures
            final(self)@ == old(self)@.after_read_word(4),
            final(self)@.valid(),
            match old(self)@.word_at(4) {
                Some(u) => value matches Some(x) && x as int == as_signed(u, 4),
                None => value is None,
            },
    {
        proof {
            lemma_byte_ranges();
        }
        match self.read_word(4) {
            Some(u) => if u < 2147483648 {
                Some(u as i32)
            } else {
                Some((u as i64 - 4294967296) as i32)
            },
            None => None,
        }
    }

    /// Writes `value` as a signed 32-bit integer at the cursor and moves the cursor past
    /// it; nothing is written when the cursor is not strictly before the
    /// last 4 byte(s), or the message was sent.
    pub fn write_int32(&mut self, value: i32)
        requires
            old(self)@.word_defined(4),
        ensures
            final(self)@ == old(self)@.after_write_word(4, as_unsigned(value as int, 4)),
            final(self)@.valid(),
    {
        proof {
            lemma_byte_ranges();
        }
        let u: u32 = if value >= 0 {
            value as u32
        } else {
            (value as i64 + 4294967296) as u32
        };
        self.write_word(4, u);
    }

    /// Reads the unsigned 8-bit integer at the cursor and moves the cursor past it;
    /// nothing is read when the cursor is not strictly before the last
    /// 1 byte(s), or the message was sent.
    pub fn read_uint8(&mut self) -> (value: Option<u8>)
        requires
            old(self)@.word_defined(1),
        ensures
            final(self)@ == old(self)@.after_read_word(1),
            final(self)@.valid(),
            match old(self)@.word_at(1) {
                Some(u) => value matches Some(x) && x as nat == u,
                None => value is None,
            },
    {
        proof {
            lemma_byte_ranges();
        }
        match self.read_word(1) {
            Some(u) => Some(u as u8),
            None => None,
        }
    }

    /// Writes `value` as a unsigned 8-bit integer at the cursor and moves the cursor past
    /// it; nothing is written when the cursor is not strictly before the
    /// last 1 byte(s), or the message was sent.
    pub fn write_uint8(&mut self, value: u8)
        requires
            old(self)@.word_defined(1),
        ensures
            final(self)@ == old(self)@.after_write_word(1, value as nat),
            final(self)@.valid(),
    {
        proof {
            lemma_byte_ranges();
        }
        let u: u32 = value as u32;
        self.write_word(1, u);
    }

    /// Reads the unsigned 16-bit integer at the cursor and moves the cursor past it;
    /// nothing is read when the cursor is not strictly before the last
    /// 2 byte(s), or the message was sent.
    pub fn read_uint16(&mut self) -> (value: Option<u16>)
        requires
            old(self)@.word_defined(2),
        ensures
            final(self)@ == old(self)@.after_read_word(2),
            final(self)@.valid(),
            match old(self)@.word_at(2) {
                Some(u) => value matches Some(x) && x as nat == u,
                None => value is None,
            },
    {
        proof {
            lemma_byte_ranges();
        }
        match self.read_word(2) {
            Some(u) => Some(u as u16),
            None => None,
        }
    }

    /// Writes `value` as a unsigned 16-bit integer at the cursor and moves the cursor past
    /// it; nothing is written when the cursor is not strictly before the
    /// last 2 byte(s), or the message was sent.
    pub fn write_uint16(&mut self, value: u16)
        requires
            old(self)@.word_defined(2),
        ensures
            final(self)@ == old(self)@.after_write_word(2, value as nat),
            final(self)@.valid(),
    {
        proof {
            lemma_byte_ranges();
        }
        let u: u32 = value as u32;
        self.write_word(2, u);
    }

    /// Reads the unsigned 32-bit integer at the cursor and moves the cursor past it;
    /// nothing is read when the cursor is not strictly before the last
    /// 4 byte(s), or the message was sent.
    pub fn read_uint32(&mut self) -> (value: Option<u32>)
        requires
            old(self)@.word_defined(4),
        ensures
            final(self)@ == old(self)@.after_read_word(4),
            final(self)@.valid(),
            match old(self)@.word_at(4) {
                Some(u) => value matches Some(x) && x as nat == u,
                None => value is None,
            },
    {
        proof {
            lemma_byte_ranges();
        }
        match self.read_word(4) {
            Some(u) => Some(u as u32),
            None => None,
        }
    }

    /// Writes `value` as a unsigned 32-bit integer at the cursor and moves the cursor past
    /// it; nothing is written when the cursor is not strictly before the
    /// last 4 byte(s), or the message was sent.
    pub fn write_uint32(&mut self, value: u32)
        requires
            old(self)@.word_defined(4),
        ensures
            final(self)@ == old(self)@.after_write_word(4, value as nat),
            final(self)@.valid(),
    {
        proof {
            lemma_byte_ranges();
        }
        let u: u32 = value as u32;
        self.write_word(4, u);
    }

    /// Reads the 32-bit pattern of a floating-point number at the cursor
    /// and moves the cursor past it; nothing is read when the cursor is not
    /// strictly before the last 4 bytes, or the message was sent.
    pub fn read_float_bits(&mut self) -> (bits: Option<u32>)
        requires
            old(self)@.word_defined(4),
        ensures
            final(self)@ == old(self)@.after_read_word(4),
            final(self)@.valid(),
            match old(self)@.word_at(4) {
                Some(u) => bits matches Some(x) && x as nat == u,
                None => bits is None,
            },
    {
        proof {
            lemma_byte_ranges();
        }
        self.read_word(4)
    }

    /// Writes the 32-bit pattern `bits` of a floating-point number at the
    /// cursor and moves the cursor past it; nothing is written when the
    /// cursor is not strictly before the last 4 bytes, or the message was
    /// sent.
    pub fn write_float_bits(&mut self, bits: u32)
        requires
            old(self)@.word_defined(4),
        ensures
            final(self)@ == old(self)@.after_write_word(4, bits as nat),
            final(self)@.valid(),
    {
        proof {
            lemma_byte_ranges();
        }
        self.write_word(4, bits);
    }
}

/// Replacing a span keeps the length, holds the new bytes there, and
/// keeps the others.
pub proof fn lemma_splice(d: Seq<u8>, at: nat, s: Seq<u8>)
    requires
        at + s.len() <= d.len(),
    ensures
        splice(d, at, s).len() == d.len(),
        splice(d, at, s).subrange(at as int, (at + s.len()) as int) == s,
        forall|j: int| 0 <= j < d.len() && !(at <= j < at + s.len()) ==> #[trigger] splice(d, at, s)[j] == d[j],
{
    assert(splice(d, at, s).subrange(at as int, (at + s.len()) as int) =~= s);
}

/// What a read gives back of a write: after writing `v` and moving the
/// cursor back to where the write began, reading `v.len()` bytes yields
/// the part of `v` that fitted into the message.
pub proof fn law_write_then_read_back(m: MsgView, v: Seq<u8>)
    requires
        m.data is Some,
        m.offset <= m.data.unwrap().len(),
    ensures
        m.after_write_data(v).after_seek(m.offset).read_data_result(v.len()) == Some(
            v.subrange(0, m.span(v.len()) as int),
        ),
{
    let d = m.data.unwrap();
    let n = m.span(v.len());
    lemma_splice(d, m.offset, v.subrange(0, n as int));
}

/// What a script reads back of what it wrote: moving the cursor to `o`,
/// writing `s` where it fits entirely, moving back to `o` and reading
/// `s.len()` bytes yields `s` and leaves the cursor right after it; the
/// bytes outside the written span are those the message held before.
pub proof fn law_seek_write_seek_read(m: MsgView, o: nat, s: Seq<u8>)
    requires
        m.data is Some,
        o + s.len() <= m.data.unwrap().len(),
    ensures
        ({
            let d = m.data.unwrap();
            let written = m.after_seek(o).after_write_data(s);
            let back = written.after_seek(o);
            &&& written.data == Some(splice(d, o, s))
            &&& written.data.unwrap().len() == d.len()
            &&& forall|j: int|
                0 <= j < d.len() && !(o <= j < o + s.len()) ==> #[trigger] written.data.unwrap()[j]
                    == d[j]
            &&& back.read_data_result(s.len()) == Some(s)
            &&& back.after_read_data(s.len()).offset == o + s.len()
        }),
{
    let d = m.data.unwrap();
    let at = m.after_seek(o);
    assert(at.span(s.len()) == s.len());
    assert(s.subrange(0, s.len() as int) =~= s);
    lemma_splice(d, o, s);
    law_write_then_read_back(at, s);
}

/// What a read gives back of an integer write: after writing the `w`-byte
/// pattern `u` where it fits and moving the cursor back, reading a
/// `w`-byte integer yields `u`.
pub proof fn law_word_round_trip(m: MsgView, w: nat, u: nat)
    requires
        m.valid(),
        m.word_fits(w),
        u < byte_range(w),
    ensures
        m.after_write_word(w, u).after_seek(m.offset).word_at(w) == Some(u),
{
    let d = m.data.unwrap();
    lemma_le_bytes_len(u, w);
    lemma_splice(d, m.offset, le_bytes(u, w));
    crate::encoding::law_le_round_trip(u, w);
}

/// What a read gives back of a signed write: writing a signed `w`-byte
/// integer `v` and reading it back where it was written yields `v`.
pub proof fn law_signed_word_round_trip(m: MsgView, w: nat, v: int)
    requires
        m.valid(),
        m.word_fits(w),
        w > 0,
        -(byte_range(w) / 2) <= v < byte_range(w) / 2,
    ensures
        m.after_write_word(w, as_unsigned(v, w)).after_seek(m.offset).word_at(w) == Some(
            as_unsigned(v, w),
        ),
        as_signed(as_unsigned(v, w), w) == v,
{
    crate::encoding::law_signed_round_trip(v, w);
    law_word_round_trip(m, w, as_unsigned(v, w));
}

/// A sent message is inert: reads yield nothing, and no operation changes
/// it.
pub proof fn law_sent_message_is_inert(m: MsgView, len: nat, v: Seq<u8>, w: nat, u: nat, pos: nat)
    ensures
        m.after_take().read_data_result(len) is None,
        m.after_take().after_read_data(len) == m.after_take(),
        m.after_take().after_write_data(v) == m.after_take(),
        m.after_take().word_at(w) is None,
        m.after_take().after_read_word(w) == m.after_take(),
        m.after_take().after_write_word(w, u) == m.after_take(),
        m.after_take().after_seek(pos) == m.after_take(),
{
}

/// Every operation keeps the cursor within the bytes; reads and moves keep
/// the bytes, and writes keep their number.
pub proof fn law_operations_keep_shape(m: MsgView, len: nat, v: Seq<u8>, w: nat, u: nat, pos: nat)
    requires
        m.valid(),
        m.word_defined(w),
    ensures
        m.after_read_data(len).valid(),
        m.after_read_data(len).data == m.data,
        m.after_write_data(v).valid(),
        m.after_read_word(w).valid(),
        m.after_read_word(w).data == m.data,
        m.after_write_word(w, u).valid(),
        m.after_seek(pos).valid(),
        m.after_seek(pos).data == m.data,
        m.after_take().valid(),
        m.data is Some ==> m.after_write_data(v).data.unwrap().len() == m.data.unwrap().len(),
        m.data is Some ==> m.after_write_word(w, u).data.unwrap().len() == m.data.unwrap().len(),
{
    if let Some(d) = m.data {
        lemma_splice(d, m.offset, v.subrange(0, m.span(v.len()) as int));
        lemma_le_bytes_len(u, w);
        if m.word_fits(w) {
            lemma_splice(d, m.offset, le_bytes(u, w));
        }
    }
}

/// Reading moves the cursor by exactly the number of bytes read, which is
/// at most the number asked for.
pub proof fn law_read_advances_by_length_read(m: MsgView, len: nat)
    requires
        m.valid(),
        m.data is Some,
    ensures
        m.read_data_result(len).unwrap().len() <= len,
        m.after_read_data(len).offset == m.offset + m.read_data_result(len).unwrap().len(),
{
}

/// What a write of bytes does: where the message holds bytes `d` and the
/// cursor is at `o`, the first `n` bytes of `v` are stored at `o..o + n`,
/// where `n` is `v.len()` when it fits and otherwise the room left; every
/// other byte and the length are kept, and the cursor ends at `o + n`.
pub proof fn law_write_data_effect(m: MsgView, v: Seq<u8>)
    requires
        m.data is Some,
        m.offset <= m.data.unwrap().len(),
    ensures
        ({
            let d = m.data.unwrap();
            let o = m.offset;
            let n: int = if o + v.len() <= d.len() { v.len() as int } else { d.len() - o };
            let r = m.after_write_data(v);
            &&& r.data is Some
            &&& r.data.unwrap().len() == d.len()
            &&& r.offset == o + n
            &&& forall|k: int| 0 <= k < n ==> #[trigger] r.data.unwrap()[o + k] == v[k]
            &&& forall|j: int|
                0 <= j < d.len() && !(o <= j < o + n) ==> #[trigger] r.data.unwrap()[j] == d[j]
        }),
{
    let d = m.data.unwrap();
    let n = m.span(v.len());
    let s = v.subrange(0, n as int);
    lemma_splice(d, m.offset, s);
    let r = splice(d, m.offset, s);
    assert forall|k: int| 0 <= k < n implies #[trigger] r[m.offset + k] == v[k] by {
        assert(r.subrange(m.offset as int, (m.offset + n) as int)[k] == s[k]);
    }
}

/// What a read of bytes does: where the message holds bytes `d` and the
/// cursor is at `o`, reading `len` bytes yields `n` bytes, `len` when they
/// fit and otherwise the rest of the message, equal to `d[o..o + n]`; the
/// cursor ends at `o + n` and the bytes are kept. A sent message yields
/// nothing and stays as it is.
pub proof fn law_read_data_effect(m: MsgView, len: nat)
    ensures
        m.data is None ==> m.read_data_result(len) is None && m.after_read_data(len) == m,
        m.data is Some && m.offset <= m.data.unwrap().len() ==> ({
            let d = m.data.unwrap();
            let o = m.offset;
            let n: int = if o + len <= d.len() { len as int } else { d.len() - o };
            let r = m.read_data_result(len);
            &&& r is Some
            &&& r.unwrap().len() == n
            &&& forall|k: int| 0 <= k < n ==> #[trigger] r.unwrap()[k] == d[o + k]
            &&& m.after_read_data(len).offset == o + n
            &&& m.after_read_data(len).data == m.data
        }),
{
}

/// What moving the cursor does: to `pos`, or to the end if `pos` lies
/// beyond it, keeping the bytes; a sent message stays as it is. Handing
/// the bytes over leaves none and keeps the cursor.
pub proof fn law_seek_and_take_effect(m: MsgView, pos: nat)
    ensures
        m.data is None ==> m.after_seek(pos) == m,
        m.data is Some ==> m.after_seek(pos).data == m.data && m.after_seek(pos).offset == (if pos
            <= m.data.unwrap().len() {
            pos
        } else {
            m.data.unwrap().len()
        }),
        m.after_take().data is None,
        m.after_take().offset == m.offset,
{
}

/// When an integer of `w` bytes is read or written: exactly when the
/// message holds bytes and the integer would end before the last of them
/// (`o + w < len`). Otherwise nothing is read and the message is left as
/// it is; a read that takes place moves the cursor by `w` and keeps the
/// bytes.
pub proof fn law_word_bound(m: MsgView, w: nat, u: nat)
    ensures
        m.data is None ==> m.word_at(w) is None && m.after_read_word(w) == m && m.after_write_word(
            w,
            u,
        ) == m,
        m.data is Some ==> (m.word_at(w) is Some <==> m.offset + w < m.data.unwrap().len()),
        m.data is Some && !(m.offset + w < m.data.unwrap().len()) ==> m.after_read_word(w) == m
            && m.after_write_word(w, u) == m,
        m.data is Some && m.offset + w < m.data.unwrap().len() ==> m.after_read_word(w).offset
            == m.offset + w && m.after_read_word(w).data == m.data,
{
}

/// The value an integer read yields: the bytes at the cursor, least
/// significant first.
pub proof fn law_word_read_value(m: MsgView)
    requires
        m.data is Some,
    ensures
        ({
            let d = m.data.unwrap();
            let o = m.offset as int;
            &&& o + 1 < d.len() ==> m.word_at(1) == Some(d[o] as nat)
            &&& o + 2 < d.len() ==> m.word_at(2) == Some((d[o] + 256 * d[o + 1]) as nat)
            &&& o + 4 < d.len() ==> m.word_at(4) == Some(
                (d[o] + 256 * d[o + 1] + 65536 * d[o + 2] + 16777216 * d[o + 3]) as nat,
            )
        }),
{
    let d = m.data.unwrap();
    let o = m.offset as int;
    if o + 1 < d.len() {
        crate::encoding::law_le_value_digits(d.subrange(o, o + 1));
    }
    if o + 2 < d.len() {
        crate::encoding::law_le_value_digits(d.subrange(o, o + 2));
    }
    if o + 4 < d.len() {
        crate::encoding::law_le_value_digits(d.subrange(o, o + 4));
    }
}

/// What an integer write does where it takes place: the `w` bytes at the
/// cursor become the base-256 digits of `u`, least significant first; no
/// other byte changes, the length is kept, and the cursor moves by `w`.
pub proof fn law_word_write_effect(m: MsgView, w: nat, u: nat)
    requires
        m.data is Some,
        m.offset + w < m.data.unwrap().len(),
        (w == 1 && u < 256) || (w == 2 && u < 65536) || (w == 4 && u < 4294967296),
    ensures
        ({
            let d = m.data.unwrap();
            let o = m.offset as int;
            let r = m.after_write_word(w, u);
            &&& r.data is Some
            &&& r.data.unwrap().len() == d.len()
            &&& r.offset == o + w
            &&& forall|j: int|
                0 <= j < d.len() && !(o <= j < o + w) ==> #[trigger] r.data.unwrap()[j] == d[j]
            &&& r.data.unwrap()[o] == u % 256
            &&& w >= 2 ==> r.data.unwrap()[o + 1] == (u / 256) % 256
            &&& w == 4 ==> r.data.unwrap()[o + 2] == (u / 65536) % 256 && r.data.unwrap()[o + 3]
                == (u / 16777216) % 256
        }),
{
    let d = m.data.unwrap();
    let o = m.offset;
    crate::encoding::law_le_bytes_digits(u);
    lemma_le_bytes_len(u, w);
    let s = le_bytes(u, w);
    lemma_splice(d, o, s);
    let r = splice(d, o, s);
    assert forall|k: int| 0 <= k < w implies #[trigger] r[o + k] == s[k] by {
        assert(r.subrange(o as int, (o + w) as int)[k] == s[k]);
    }
    assert(r[o + 0int] == s[0]);
}

/// A call of one of a message's methods, by what it changes.
pub enum MsgOp {
    ReadData(nat),
    WriteData(Seq<u8>),
    ReadWord(nat),
    WriteWord(nat, nat),
    Seek(nat),
    Take,
}

impl MsgView {
    /// The message after `op`.
    pub open spec fn apply(self, op: MsgOp) -> MsgView {
        match op {
            MsgOp::ReadData(len) => self.after_read_data(len),
            MsgOp::WriteData(v) => self.after_write_data(v),
            MsgOp::ReadWord(w) => self.after_read_word(w),
            MsgOp::WriteWord(w, u) => self.after_write_word(w, u),
            MsgOp::Seek(pos) => self.after_seek(pos),
            MsgOp::Take => self.after_take(),
        }
    }

    /// The message after `ops`, in order.
    pub open spec fn apply_all(self, ops: Seq<MsgOp>) -> MsgView
        decreases ops.len(),
    {
        if ops.len() == 0 {
            self
        } else {
            self.apply(ops[0]).apply_all(ops.drop_first())
        }
    }

    /// Each of `ops` is defined on the message it meets: an integer access
    /// meets a message that, if it holds bytes, holds at least the
    /// integer's width.
    pub open spec fn all_defined(self, ops: Seq<MsgOp>) -> bool
        decreases ops.len(),
    {
        if ops.len() == 0 {
            true
        } else {
            &&& match ops[0] {
                MsgOp::ReadWord(w) => self.word_defined(w),
                MsgOp::WriteWord(w, _) => self.word_defined(w),
                _ => true,
            }
            &&& self.apply(ops[0]).all_defined(ops.drop_first())
        }
    }
}

/// Whatever methods are called on a message, each where it is defined,
/// the cursor stays within the bytes and the number of bytes never
/// changes while the message holds them.
pub proof fn law_method_sequences_keep_shape(m: MsgView, ops: Seq<MsgOp>)
    requires
        m.valid(),
        m.all_defined(ops),
    ensures
        m.apply_all(ops).valid(),
        m.apply_all(ops).data is Some ==> m.data is Some && m.apply_all(ops).data.unwrap().len()
            == m.data.unwrap().len(),
    decreases ops.len(),
{
    if ops.len() > 0 {
        let next = m.apply(ops[0]);
        match ops[0] {
            MsgOp::ReadData(len) => law_operations_keep_shape(m, len, Seq::empty(), 0, 0, 0),
            MsgOp::WriteData(v) => law_operations_keep_shape(m, 0, v, 0, 0, 0),
            MsgOp::ReadWord(w) => law_operations_keep_shape(m, 0, Seq::empty(), w, 0, 0),
            MsgOp::WriteWord(w, u) => law_operations_keep_shape(m, 0, Seq::empty(), w, u, 0),
            MsgOp::Seek(pos) => law_operations_keep_shape(m, 0, Seq::empty(), 0, 0, pos),
            MsgOp::Take => {},
        }
        law_method_sequences_keep_shape(next, ops.drop_first());
    }
}

} // verus!
