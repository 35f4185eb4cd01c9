//! The serial port: how it is set up and how text is sent.
use vstd::prelude::*;

verus! {

/// The first serial port.
pub const COM1: u16 = 0x3F8;

/// The line status, and the bit of it that says that a byte can be sent.
pub const LINE_STATUS: u16 = 0x3FD;

/// A value for a port.
#[derive(Clone, Copy, Debug, PartialEq, Eq, Structural)]
pub struct PortWrite {
    pub port: u16,
    pub value: u8,
}

/// The writes that set the port up: interrupts off, 38400 baud, eight bits without parity
/// and one stop bit, and the buffers on.
pub open spec fn setup_writes() -> Seq<PortWrite> {
    seq![
        PortWrite { port: 0x3F9, value: 0x00 },
        PortWrite { port: 0x3FB, value: 0x80 },
        PortWrite { port: 0x3F8, value: 0x03 },
        PortWrite { port: 0x3F9, value: 0x00 },
        PortWrite { port: 0x3FB, value: 0x03 },
        PortWrite { port: 0x3FA, value: 0xC7 },
        PortWrite { port: 0x3FC, value: 0x0B },
    ]
}

/// The writes that set the port up.
pub fn init() -> (r: [PortWrite; 7])
    ensures
        r@ == setup_writes(),
{
    let r = [
        PortWrite { port: COM1 + 1, value: 0x00 },
        PortWrite { port: COM1 + 3, value: 0x80 },
        PortWrite { port: COM1, value: 0x03 },
        PortWrite { port: COM1 + 1, value: 0x00 },
        PortWrite { port: COM1 + 3, value: 0x03 },
        PortWrite { port: COM1 + 2, value: 0xC7 },
        PortWrite { port: COM1 + 4, value: 0x0B },
    ];
    assert(r@ =~= setup_writes());
    r
}

/// Whether a byte can be sent, by the line status.
pub fn can_send(line_status: u8) -> (r: bool)
    ensures
        r == (line_status / 32 % 2 == 1),
{
    line_status / 32 % 2 == 1
}

/// The serial port as something that takes text.
pub struct Serial;

/// The bytes that are sent for a text: a carriage return goes before each line feed.
pub open spec fn sent_bytes(text: Seq<u8>) -> Seq<u8>
    decreases text.len(),
{
    if text.len() == 0 {
        Seq::empty()
    } else {
        let before = sent_bytes(text.drop_last());
        if text.last() == 10 {
            before.push(13).push(10)
        } else {
            before.push(text.last())
        }
    }
}

impl Serial {
    /// The bytes that are sent for a byte of text: at most two.
    pub fn encode(&self, byte: u8) -> (r: (Option<u8>, u8))
        ensures
            r.1 == byte,
            r.0 == if byte == 10 {
                Some(13u8)
            } else {
                None
            },
    {
        if byte == 10 {
            (Some(13), byte)
        } else {
            (None, byte)
        }
    }

    /// The bytes that are sent for a text.
    pub fn encode_all(&self, text: &[u8]) -> (r: Vec<u8>)
        ensures
            r@ == sent_bytes(text@),
    {
        let mut out: Vec<u8> = Vec::new();
        let mut i: usize = 0;
        assert(text@.take(0) =~= Seq::<u8>::empty());
        while i < text.len()
            invariant
                i <= text@.len(),
                out@ == sent_bytes(text@.take(i as int)),
            decreases text@.len() - i,
        {
            assert(text@.take(i + 1).drop_last() =~= text@.take(i as int));
            let (first, second) = self.encode(text[i]);
            if let Some(b) = first {
                out.push(b);
            }
            out.push(second);
            i = i + 1;
        }
        assert(text@.take(text@.len() as int) =~= text@);
        out
    }
}

/// A text is sent byte by byte: a line feed as a carriage return and a line feed, every other
/// byte as it is, and one text after the other as both of them in one.
pub proof fn law_text_is_sent_byte_by_byte(a: Seq<u8>, b: Seq<u8>, c: u8)
    ensures
        sent_bytes(Seq::empty()) == Seq::<u8>::empty(),
        sent_bytes(seq![c]) == if c == 10 {
            seq![13u8, 10u8]
        } else {
            seq![c]
        },
        sent_bytes(a + b) == sent_bytes(a) + sent_bytes(b),
    decreases b.len(),
{
    reveal_with_fuel(sent_bytes, 2);
    assert(seq![c].drop_last() =~= Seq::<u8>::empty());
    assert(Seq::<u8>::empty().push(13).push(10) =~= seq![13u8, 10u8]);
    assert(Seq::<u8>::empty().push(c) =~= seq![c]);
    if b.len() == 0 {
        assert(a + b =~= a);
        assert(sent_bytes(a) + sent_bytes(b) =~= sent_bytes(a));
    } else {
        law_text_is_sent_byte_by_byte(a, b.drop_last(), c);
        assert((a + b).drop_last() =~= a + b.drop_last());
        assert((a + b).last() == b.last());
    }
}

/// The port is set up for 38400 baud: while the divisor latch is open the divisor of the 115200
/// Hz clock is written, and the write that closes the latch selects eight bits. No interrupt is
/// ever enabled, the buffers are switched on, and the port is ready last.
pub proof fn law_port_is_set_up(i: int)
    requires
        0 <= i < 7,
    ensures
        ({
            let w = setup_writes();
            &&& w.len() == 7
            &&& w[0].port == 0x3F8 + 1 && w[0].value == 0
            &&& w[1].port == 0x3F8 + 3 && w[1].value == 0x80
            &&& w[2].port == 0x3F8
            &&& w[3].port == 0x3F8 + 1
            &&& (w[2].value + 256 * w[3].value) * 38400 == 115200
            &&& w[4].port == 0x3F8 + 3 && w[4].value == 3
            &&& w[5].port == 0x3F8 + 2 && w[5].value == 0xC7
            &&& w[6].port == 0x3F8 + 4 && w[6].value == 0x0B
            &&& w[i].port == 0x3F8 + 1 ==> w[i].value == 0
        }),
{
}

/// The line status is the sixth register of the port.
pub proof fn law_line_status_belongs_to_the_port()
    ensures
        COM1 == 0x3F8,
        LINE_STATUS == COM1 + 5,
{
}

} // verus!
