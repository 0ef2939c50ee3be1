//! 16550-style UART driver state: interrupt-driven receive ring, software
//! transmit ring, and newline-gated reads.
//!
//! The memory-mapped device itself is outside the library: the receive
//! interrupt hands in the bytes it drained from the data register, and the
//! flush path hands back the bytes to store into the transmit register.
//! Both rings are 256-byte circular buffers holding at most 255 bytes;
//! overflow is dropped silently in either direction.

use crate::cstr::dec_digits;
use crate::cstr::push_decimal;
use vstd::prelude::*;

verus! {

/// Base address of UART0 on the `virt` machine.
pub const UART_BASE: u64 = 0x1000_0000;

/// Offset of the transmit/receive holding register.
pub const UART_THR_RHR: u64 = 0;

/// Offset of the interrupt-enable register.
pub const UART_IER: u64 = 1;

/// Offset of the line-status register.
pub const UART_LSR: u64 = 5;

/// Receive-interrupt enable bit of IER.
pub const UART_RX_ENABLE: u8 = 1;

/// Transmit-holding-register-empty bit of LSR.
pub const UART_THR_EMPTY: u8 = 1 << 5;

/// Data-ready bit of LSR.
pub const UART_DATA_READY: u8 = 1;

pub const UART_WRITE_BUFFER_SIZE: usize = 256;

pub const UART_READ_BUFFER_SIZE: usize = 256;

/// The bytes a circular buffer holds, oldest first.
pub open spec fn ring_content(buf: Seq<u8>, head: int, tail: int) -> Seq<u8> {
    if tail >= head {
        buf.subrange(head, tail)
    } else {
        buf.subrange(head, buf.len() as int) + buf.subrange(0, tail)
    }
}

/// Storing at `tail` and advancing it appends one byte to the content.
proof fn lemma_ring_push(buf: Seq<u8>, head: int, tail: int, b: u8)
    requires
        buf.len() == 256,
        0 <= head < 256,
        0 <= tail < 256,
        (tail + 1) % 256 != head,
    ensures
        ring_content(buf.update(tail, b), head, (tail + 1) % 256) == ring_content(
            buf,
            head,
            tail,
        ).push(b),
{
    assert(ring_content(buf.update(tail, b), head, (tail + 1) % 256) =~= ring_content(
        buf,
        head,
        tail,
    ).push(b));
}

/// Advancing `head` drops the oldest byte from the content.
proof fn lemma_ring_pop(buf: Seq<u8>, head: int, tail: int)
    requires
        buf.len() == 256,
        0 <= head < 256,
        0 <= tail < 256,
        head != tail,
    ensures
        ring_content(buf, (head + 1) % 256, tail) == ring_content(buf, head, tail).skip(1),
        ring_content(buf, head, tail)[0] == buf[head],
{
    assert(ring_content(buf, (head + 1) % 256, tail) =~= ring_content(buf, head, tail).skip(1));
}

/// How many newline bytes a buffer holds.
pub open spec fn count_newlines(s: Seq<u8>) -> nat
    decreases s.len(),
{
    if s.len() == 0 {
        0
    } else {
        (if s[0] == 10 {
            1nat
        } else {
            0nat
        }) + count_newlines(s.skip(1))
    }
}

/// The position of the first newline byte of `s`.
pub open spec fn first_nl(s: Seq<u8>) -> int
    decreases s.len(),
{
    if s.len() == 0 {
        0
    } else if s[0] == 10 {
        0
    } else {
        1 + first_nl(s.skip(1))
    }
}

/// The first-newline position is never negative.
pub proof fn lemma_first_nl_nonneg(s: Seq<u8>)
    ensures
        first_nl(s) >= 0,
    decreases s.len(),
{
    if s.len() > 0 && s[0] != 10 {
        lemma_first_nl_nonneg(s.skip(1));
    }
}

proof fn lemma_count_newlines_push(s: Seq<u8>, b: u8)
    ensures
        count_newlines(s.push(b)) == count_newlines(s) + (if b == 10 {
            1nat
        } else {
            0nat
        }),
    decreases s.len(),
{
    if s.len() == 0 {
        assert(s.push(b)[0] == b);
        assert(s.push(b).skip(1) =~= Seq::<u8>::empty());
        assert(count_newlines(Seq::<u8>::empty()) == 0);
        assert(count_newlines(s) == 0);
    } else {
        assert(s.push(b)[0] == s[0]);
        assert(s.push(b).skip(1) =~= s.skip(1).push(b));
        lemma_count_newlines_push(s.skip(1), b);
        assert(count_newlines(s.push(b)) == (if s[0] == 10 {
            1nat
        } else {
            0nat
        }) + count_newlines(s.skip(1).push(b)));
    }
}

/// When a buffer holds a newline, the first one is a real position: it is
/// a newline, nothing before it is, and consuming through it removes
/// exactly one newline from the count.
proof fn lemma_first_nl(s: Seq<u8>)
    requires
        count_newlines(s) > 0,
    ensures
        0 <= first_nl(s) < s.len(),
        s[first_nl(s)] == 10,
        forall|i: int| 0 <= i < first_nl(s) ==> s[i] != 10,
        count_newlines(s.skip(first_nl(s) + 1)) == count_newlines(s) - 1,
    decreases s.len(),
{
    if s[0] == 10 {
    } else {
        lemma_first_nl(s.skip(1));
        assert(forall|i: int| 1 <= i < first_nl(s) ==> s[i] == s.skip(1)[i - 1]);
        assert(s.skip(first_nl(s) + 1) =~= s.skip(1).skip(first_nl(s.skip(1)) + 1));
    }
}

/// Carriage returns are delivered as newlines.
pub open spec fn normalize(b: u8) -> u8 {
    if b == 13 {
        10
    } else {
        b
    }
}

/// The software transmit ring: bytes queued for the holding register.
pub struct WriteRing {
    buf: Vec<u8>,
    head: usize,
    tail: usize,
}

impl WriteRing {
    pub closed spec fn wf(&self) -> bool {
        &&& self.buf@.len() == 256
        &&& self.head < 256
        &&& self.tail < 256
    }

    /// The queued bytes, oldest first.
    pub closed spec fn view(&self) -> Seq<u8> {
        ring_content(self.buf@, self.head as int, self.tail as int)
    }

    pub fn new() -> (r: Self)
        ensures
            r.wf(),
            r.view() == Seq::<u8>::empty(),
    {
        let mut buf: Vec<u8> = Vec::new();
        let mut i: usize = 0;
        while i < 256
            invariant
                i <= 256,
                buf@.len() == i,
            decreases 256 - i,
        {
            buf.push(0);
            i += 1;
        }
        let r = WriteRing { buf, head: 0, tail: 0 };
        proof {
            assert(r.view() =~= Seq::<u8>::empty());
        }
        r
    }

    /// Append `data` to the ring; whatever exceeds the free space is
    /// dropped silently.
    pub fn uart_write(&mut self, data: &[u8])
        requires
            old(self).wf(),
        ensures
            final(self).wf(),
            final(self).view() == old(self).view() + data@.take(spec_room(old(self).view(), data@)),
    {
        let ghost v0 = self.view();
        let ghost k = spec_room(v0, data@);
        let mut i: usize = 0;
        while i < data.len()
            invariant_except_break
                self.wf(),
                i <= data@.len(),
                k == spec_room(v0, data@),
                i <= k,
                self.view() == v0 + data@.take(i as int),
            ensures
                self.wf(),
                self.view() == v0 + data@.take(k),
            decreases data@.len() - i,
        {
            let next_tail = (self.tail + 1) % 256;
            if next_tail == self.head {
                proof {
                    ring_len_full(self.buf@, self.head as int, self.tail as int);
                    assert(self.view().len() == v0.len() + i);
                    assert(i == k);
                    assert(data@.take(i as int) == data@.take(k));
                }
                break ;
            }
            proof {
                lemma_ring_push(self.buf@, self.head as int, self.tail as int, data@[i as int]);
                ring_len_not_full(self.buf@, self.head as int, self.tail as int);
                assert(self.view().len() == v0.len() + i);
                assert((v0 + data@.take(i as int)).push(data@[i as int]) =~= v0 + data@.take(
                    i + 1,
                ));
            }
            self.buf[self.tail] = data[i];
            self.tail = next_tail;
            i += 1;
        }
    }

    /// Drain the ring: the bytes to hand to the holding register, in order.
    pub fn uart_write_buffer_flush(&mut self) -> (out: Vec<u8>)
        requires
            old(self).wf(),
        ensures
            final(self).wf(),
            out@ == old(self).view(),
            final(self).view() == Seq::<u8>::empty(),
    {
        let ghost v0 = self.view();
        let mut out: Vec<u8> = Vec::new();
        while self.head != self.tail
            invariant
                self.wf(),
                v0 == out@ + self.view(),
            decreases self.view().len(),
        {
            proof {
                lemma_ring_pop(self.buf@, self.head as int, self.tail as int);
            }
            let b = self.buf[self.head];
            self.head = (self.head + 1) % 256;
            out.push(b);
            proof {
                assert(v0 =~= out@ + self.view());
            }
        }
        proof {
            assert(self.view() =~= Seq::<u8>::empty());
            assert(v0 =~= out@);
        }
        out
    }
}

/// How many of the incoming bytes still fit: the ring keeps at most 255.
pub open spec fn spec_room(content: Seq<u8>, data: Seq<u8>) -> int {
    if content.len() + data.len() <= 255 {
        data.len() as int
    } else {
        255 - content.len()
    }
}

/// A ring whose next slot would collide with `head` holds 255 bytes.
proof fn ring_len_full(buf: Seq<u8>, head: int, tail: int)
    requires
        buf.len() == 256,
        0 <= head < 256,
        0 <= tail < 256,
        (tail + 1) % 256 == head,
    ensures
        ring_content(buf, head, tail).len() == 255,
{
}

/// A ring whose next slot is free holds fewer than 255 bytes.
proof fn ring_len_not_full(buf: Seq<u8>, head: int, tail: int)
    requires
        buf.len() == 256,
        0 <= head < 256,
        0 <= tail < 256,
        (tail + 1) % 256 != head,
    ensures
        ring_content(buf, head, tail).len() < 255,
{
}

/// The receive ring with its count of complete lines.
pub struct ReadRing {
    buf: Vec<u8>,
    head: usize,
    tail: usize,
    newline_cnt: usize,
}

impl ReadRing {
    /// The shape of the ring, apart from the line count.
    closed spec fn structural(&self) -> bool {
        &&& self.buf@.len() == 256
        &&& self.head < 256
        &&& self.tail < 256
    }

    pub closed spec fn wf(&self) -> bool {
        &&& self.structural()
        &&& self.newline_cnt == count_newlines(self.view())
    }

    /// The received bytes not yet read, oldest first.
    pub closed spec fn view(&self) -> Seq<u8> {
        ring_content(self.buf@, self.head as int, self.tail as int)
    }

    /// How many complete lines are available for delivery.
    pub closed spec fn lines(&self) -> nat {
        self.newline_cnt as nat
    }

    pub fn new() -> (r: Self)
        ensures
            r.wf(),
            r.view() == Seq::<u8>::empty(),
            r.lines() == 0,
    {
        let mut buf: Vec<u8> = Vec::new();
        let mut i: usize = 0;
        while i < 256
            invariant
                i <= 256,
                buf@.len() == i,
            decreases 256 - i,
        {
            buf.push(0);
            i += 1;
        }
        let r = ReadRing { buf, head: 0, tail: 0, newline_cnt: 0 };
        proof {
            assert(r.view() =~= Seq::<u8>::empty());
        }
        r
    }

    /// Receive interrupt: store the bytes drained from the holding
    /// register, carriage returns normalised to newlines, dropping what no
    /// longer fits; the stored bytes are echoed back for transmission.
    pub fn uart_irq_handler(&mut self, input: &[u8]) -> (echo: Vec<u8>)
        requires
            old(self).wf(),
        ensures
            final(self).wf(),
            final(self).view() == old(self).view() + norm_prefix(old(self).view(), input@),
            echo@ == norm_prefix(old(self).view(), input@),
            final(self).lines() == old(self).lines() + count_newlines(
                norm_prefix(old(self).view(), input@),
            ),
    {
        let ghost v0 = self.view();
        let ghost k = spec_room(v0, input@);
        let ghost l0 = self.newline_cnt as nat;
        proof {
            lemma_count_le_len(self.view());
        }
        let mut echo: Vec<u8> = Vec::new();
        let mut i: usize = 0;
        while i < input.len()
            invariant_except_break
                self.wf(),
                i <= input@.len(),
                k == spec_room(v0, input@),
                i <= k,
                self.newline_cnt == l0 + count_newlines(echo@),
                self.newline_cnt <= 255,
                self.view() == v0 + norm_seq(input@.take(i as int)),
                echo@ == norm_seq(input@.take(i as int)),
            ensures
                self.wf(),
                self.view() == v0 + norm_seq(input@.take(k)),
                echo@ == norm_seq(input@.take(k)),
                self.newline_cnt == l0 + count_newlines(echo@),
            decreases input@.len() - i,
        {
            let byte = input[i];
            let store_byte: u8 = if byte == 13 || byte == 10 {
                10
            } else {
                byte
            };
            let next_tail = (self.tail + 1) % 256;
            if next_tail == self.head {
                proof {
                    ring_len_full(self.buf@, self.head as int, self.tail as int);
                    assert(self.view().len() == v0.len() + norm_seq(input@.take(i as int)).len());
                    assert(i == k);
                    assert(norm_seq(input@.take(i as int)) == norm_seq(input@.take(k)));
                }
                break ;
            }
            proof {
                lemma_ring_push(self.buf@, self.head as int, self.tail as int, store_byte);
                ring_len_not_full(self.buf@, self.head as int, self.tail as int);
                lemma_count_newlines_push(self.view(), store_byte);
                lemma_count_newlines_push(echo@, store_byte);
                lemma_count_le_len(self.view());
                assert(norm_seq(input@.take(i + 1)) =~= norm_seq(input@.take(i as int)).push(
                    normalize(input@[i as int]),
                ));
                assert((v0 + norm_seq(input@.take(i as int))).push(store_byte) =~= v0 + norm_seq(
                    input@.take(i + 1),
                ));
            }
            self.buf[self.tail] = store_byte;
            self.tail = next_tail;
            if store_byte == 10 {
                self.newline_cnt = self.newline_cnt + 1;
            }
            echo.push(store_byte);
            i += 1;
        }
        proof {
            assert(norm_prefix(v0, input@) == norm_seq(input@.take(k)));
        }
        echo
    }

    /// Deliver one complete line into a buffer of capacity `len`: the bytes
    /// before the line's newline, then a terminating NUL, truncated to
    /// `len` bytes.  Nothing is delivered until a whole line has arrived.
    pub fn uart_read(&mut self, len: usize) -> (r: Option<Vec<u8>>)
        requires
            old(self).wf(),
        ensures
            final(self).wf(),
            r is Some <==> len > 0 && old(self).lines() > 0,
            r is None ==> *final(self) == *old(self),
            r is Some ==> {
                let p = first_nl(old(self).view());
                let out = r->Some_0;
                &&& 0 <= p < old(self).view().len()
                &&& out@.len() == (if p + 2 <= len {
                    p + 1
                } else {
                    len as int
                })
                &&& final(self).view() == old(self).view().skip(p + 1)
                &&& final(self).lines() == old(self).lines() - 1
                &&& out@ == if p + 2 <= len {
                    old(self).view().take(p).push(0)
                } else {
                    old(self).view().take(len - 1).push(0)
                }
                &&& out@.len() <= len
                &&& out@.len() > 0 && out@.last() == 0
            },
    {
        if len == 0 {
            return None;
        }
        if self.newline_cnt == 0 {
            return None;
        }
        let ghost v0 = self.view();
        proof {
            lemma_first_nl(v0);
        }
        let ghost p = first_nl(v0);
        let mut out: Vec<u8> = Vec::new();
        let ghost mut j: int = 0;
        let mut newline = false;
        while self.head != self.tail
            invariant_except_break
                self.structural(),
                0 <= j <= p,
                p < v0.len(),
                v0[p] == 10,
                forall|m: int| 0 <= m < p ==> v0[m] != 10,
                len >= 1,
                self.view() == v0.skip(j),
                self.newline_cnt == count_newlines(v0),
                out@ == if j < len {
                    v0.take(j)
                } else {
                    v0.take(len - 1).push(0)
                },
                !newline,
            ensures
                self.structural(),
                newline,
                self.view() == v0.skip(p + 1),
                self.newline_cnt == count_newlines(v0),
                out@ == if p + 2 <= len {
                    v0.take(p).push(0)
                } else {
                    v0.take(len - 1).push(0)
                },
            decreases self.view().len(),
        {
            proof {
                lemma_ring_pop(self.buf@, self.head as int, self.tail as int);
            }
            let byte = self.buf[self.head];
            self.head = (self.head + 1) % 256;
            proof {
                assert(v0.skip(j).skip(1) =~= v0.skip(j + 1));
                assert(v0.skip(j)[0] == v0[j]);
                j = j + 1;
            }
            if out.len() < len - 1 {
                if byte == 10 {
                    assert(j == p + 1);
                    out.push(0);
                    newline = true;
                    break ;
                } else {
                    out.push(byte);
                    proof {
                        assert(out@ =~= v0.take(j));
                    }
                }
            } else {
                if out.len() < len {
                    out.push(0);
                    proof {
                        assert(out@ =~= v0.take(len - 1).push(0));
                    }
                }
                if byte == 10 {
                    assert(j == p + 1);
                    newline = true;
                    break ;
                }
            }
        }
        self.newline_cnt = self.newline_cnt - 1;
        proof {
            lemma_first_nl(v0);
        }
        Some(out)
    }
}

/// The bytes of `input`, carriage returns normalised.
pub open spec fn norm_seq(input: Seq<u8>) -> Seq<u8> {
    Seq::new(input.len(), |i: int| normalize(input[i]))
}

/// The part of `input` that a ring holding `content` accepts, normalised.
pub open spec fn norm_prefix(content: Seq<u8>, input: Seq<u8>) -> Seq<u8> {
    norm_seq(input.take(spec_room(content, input)))
}

/// A buffer cannot hold more newlines than bytes.
proof fn lemma_count_le_len(s: Seq<u8>)
    ensures
        count_newlines(s) <= s.len(),
    decreases s.len(),
{
    if s.len() > 0 {
        lemma_count_le_len(s.skip(1));
    }
}

/// The interrupt-enable value that switches on the receive interrupt.
pub fn uart_init() -> (r: u8)
    ensures
        r == UART_RX_ENABLE,
{
    UART_RX_ENABLE
}

/// Append the bytes of `s` to the transmitted output.
pub fn print_string(out: &mut Vec<u8>, s: &[u8])
    ensures
        final(out)@ == old(out)@ + s@,
{
    let mut i: usize = 0;
    while i < s.len()
        invariant
            i <= s@.len(),
            out@ == old(out)@ + s@.take(i as int),
        decreases s@.len() - i,
    {
        out.push(s[i]);
        proof {
            assert(old(out)@ + s@.take(i + 1) =~= (old(out)@ + s@.take(i as int)).push(
                s@[i as int],
            ));
        }
        i += 1;
    }
    proof {
        assert(old(out)@ + s@.take(s@.len() as int) =~= old(out)@ + s@);
    }
}

/// Append the decimal digits of `num` to the transmitted output.
pub fn print_integer(out: &mut Vec<u8>, num: u64)
    ensures
        final(out)@ == old(out)@ + dec_digits(num as nat),
{
    push_decimal(out, num);
}

/// Append the decimal digits of `num` and a newline.
pub fn print_integerln(out: &mut Vec<u8>, num: u64)
    ensures
        final(out)@ == old(out)@ + dec_digits(num as nat).push(10),
{
    push_decimal(out, num);
    out.push(10);
    proof {
        assert((old(out)@ + dec_digits(num as nat)).push(10) =~= old(out)@ + dec_digits(
            num as nat,
        ).push(10));
    }
}

} // verus!
