//! What holds of the header of the audio that is sent.
use vstd::prelude::*;
use vstd::string::StringSliceAdditionalSpecFns;

use crate::dictation::chunker::{le_bytes, riff_header, BYTES_PER_SAMPLE, SAMPLE_RATE};

verus! {

/// The number that some bytes spell, least significant first.
pub open spec fn le_value(bytes: Seq<u8>) -> int
    decreases bytes.len(),
{
    if bytes.len() == 0 {
        0
    } else {
        bytes[0] + 256 * le_value(bytes.drop_first())
    }
}

/// A number of four bytes reads back from them, and of a larger one its low bits
/// do.
pub proof fn law_four_bytes_read_back(value: int)
    requires
        0 <= value,
    ensures
        le_bytes(value, 4).len() == 4,
        le_value(le_bytes(value, 4)) == value % 0x1_0000_0000,
{
    reveal_with_fuel(le_bytes, 5);
    reveal_with_fuel(le_value, 5);
    let b0 = (value % 256) as u8;
    let b1 = (value / 256 % 256) as u8;
    let b2 = (value / 256 / 256 % 256) as u8;
    let b3 = (value / 256 / 256 / 256 % 256) as u8;
    let bytes = le_bytes(value, 4);
    assert(bytes =~= seq![b0, b1, b2, b3]);
    assert(bytes.drop_first() =~= seq![b1, b2, b3]);
    assert(seq![b1, b2, b3].drop_first() =~= seq![b2, b3]);
    assert(seq![b2, b3].drop_first() =~= seq![b3]);
    assert(seq![b3].drop_first() =~= Seq::<u8>::empty());
    assert(value % 0x1_0000_0000 == b0 + 256 * (b1 + 256 * (b2 + 256 * b3)));
}

/// A number of two bytes reads back from them.
pub proof fn law_two_bytes_read_back(value: int)
    requires
        0 <= value < 0x1_0000,
    ensures
        le_bytes(value, 2).len() == 2,
        le_value(le_bytes(value, 2)) == value,
{
    reveal_with_fuel(le_bytes, 3);
    reveal_with_fuel(le_value, 3);
    let b0 = (value % 256) as u8;
    let b1 = (value / 256 % 256) as u8;
    let bytes = le_bytes(value, 2);
    assert(bytes =~= seq![b0, b1]);
    assert(bytes.drop_first() =~= seq![b1]);
    assert(seq![b1].drop_first() =~= Seq::<u8>::empty());
}

/// The header is 44 bytes long and describes its payload: a RIFF file of the
/// right size, of PCM audio on one channel, at the sample rate and with the byte
/// rate, frame and sample size that go with it, and of the payload's length.
pub proof fn law_the_header_describes_the_payload(data_len: int)
    requires
        0 <= data_len,
    ensures
        ({
            let header = riff_header(data_len);
            &&& header.len() == 44
            &&& header.subrange(0, 4) == "RIFF".spec_bytes()
            &&& le_value(header.subrange(4, 8)) == (36 + data_len) % 0x1_0000_0000
            &&& header.subrange(8, 16) == "WAVEfmt ".spec_bytes()
            &&& le_value(header.subrange(16, 20)) == 16
            &&& le_value(header.subrange(20, 22)) == 1
            &&& le_value(header.subrange(22, 24)) == 1
            &&& le_value(header.subrange(24, 28)) == SAMPLE_RATE
            &&& le_value(header.subrange(28, 32)) == SAMPLE_RATE * BYTES_PER_SAMPLE
            &&& le_value(header.subrange(32, 34)) == BYTES_PER_SAMPLE
            &&& le_value(header.subrange(34, 36)) == 8 * BYTES_PER_SAMPLE
            &&& header.subrange(36, 40) == "data".spec_bytes()
            &&& le_value(header.subrange(40, 44)) == data_len % 0x1_0000_0000
        }),
{
    reveal_strlit("RIFF");
    reveal_strlit("WAVEfmt ");
    reveal_strlit("data");
    vstd::string::is_ascii_spec_bytes("RIFF");
    vstd::string::is_ascii_spec_bytes("WAVEfmt ");
    vstd::string::is_ascii_spec_bytes("data");
    assert("RIFF".spec_bytes().len() == 4);
    assert("WAVEfmt ".spec_bytes().len() == 8);
    assert("data".spec_bytes().len() == 4);
    law_four_bytes_read_back(36 + data_len);
    law_four_bytes_read_back(16);
    law_two_bytes_read_back(1);
    law_four_bytes_read_back(SAMPLE_RATE as int);
    law_four_bytes_read_back(SAMPLE_RATE * BYTES_PER_SAMPLE);
    law_two_bytes_read_back(BYTES_PER_SAMPLE as int);
    law_two_bytes_read_back(8 * BYTES_PER_SAMPLE);
    law_four_bytes_read_back(data_len);
    let header = riff_header(data_len);
    assert(header.subrange(0, 4) =~= "RIFF".spec_bytes());
    assert(header.subrange(4, 8) =~= le_bytes(36 + data_len, 4));
    assert(header.subrange(8, 16) =~= "WAVEfmt ".spec_bytes());
    assert(header.subrange(16, 20) =~= le_bytes(16, 4));
    assert(header.subrange(20, 22) =~= le_bytes(1, 2));
    assert(header.subrange(22, 24) =~= le_bytes(1, 2));
    assert(header.subrange(24, 28) =~= le_bytes(SAMPLE_RATE as int, 4));
    assert(header.subrange(28, 32) =~= le_bytes(SAMPLE_RATE * BYTES_PER_SAMPLE, 4));
    assert(header.subrange(32, 34) =~= le_bytes(BYTES_PER_SAMPLE as int, 2));
    assert(header.subrange(34, 36) =~= le_bytes(8 * BYTES_PER_SAMPLE, 2));
    assert(header.subrange(36, 40) =~= "data".spec_bytes());
    assert(header.subrange(40, 44) =~= le_bytes(data_len, 4));
}

} // verus!
