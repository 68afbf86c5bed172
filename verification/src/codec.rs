use vstd::prelude::*;
use crate::packet::OutputPacket;

verus! {

/// Largest data block an ArtDmx packet may carry on the wire.
pub const ARTNET_MAX_DATA: usize = 512;

/// Largest port address (universe id) the wire format can address: the
/// Art-Net port address field is 15 bits wide.
pub const ARTNET_MAX_PORT: u16 = 32767;

/// Why a packet could not be turned into a wire frame.
#[derive(Clone, Copy, PartialEq, Eq, Structural, Debug)]
pub enum EncodeError {
    /// The universe id does not fit the 15-bit port address field.
    UniverseOutOfRange,
    /// The payload is empty or longer than `ARTNET_MAX_DATA` bytes.
    PayloadSizeInvalid,
}

/// ArtDmx data blocks are sent with even length: a payload of odd length is
/// followed by one zero byte.
pub open spec fn art_dmx_padded(payload: Seq<u8>) -> Seq<u8> {
    if payload.len() % 2 == 1 {
        payload.push(0)
    } else {
        payload
    }
}

/// The wire frame of one ArtDmx packet: the text `Art-Net\0`, the ArtDmx
/// opcode `0x5000` little endian, protocol version 14, the sequence stamp,
/// the physical input port (always 0 here), the port address little endian,
/// the padded data length big endian, then the padded data itself.
pub open spec fn art_dmx_frame(universe: u16, sequence: u8, payload: Seq<u8>) -> Seq<u8> {
    let data = art_dmx_padded(payload);
    seq![
        0x41u8, 0x72u8, 0x74u8, 0x2du8, 0x4eu8, 0x65u8, 0x74u8, 0x00u8,
        0x00u8, 0x50u8,
        0x00u8, 0x0eu8,
        sequence,
        0x00u8,
        (universe % 256) as u8, (universe / 256) as u8,
        (data.len() / 256) as u8, (data.len() % 256) as u8,
    ] + data
}

/// Relies on `artnet_protocol::ArtCommand::write_to_buffer` for an
/// `ArtCommand::Output` built from these plain values: it emits the header,
/// the ArtDmx opcode, the protocol version, the sequence, the physical port,
/// the port address, the big-endian length of the padded data, and the data
/// padded to even length; it returns `Ok` whenever the port address is at
/// most `ARTNET_MAX_PORT` and the data length lies in `1..=ARTNET_MAX_DATA`.
#[verifier::external_body]
fn encode_art_dmx(universe: u16, sequence: u8, payload: &Vec<u8>) -> (r: Vec<u8>)
    requires
        universe <= ARTNET_MAX_PORT,
        1 <= payload@.len() <= ARTNET_MAX_DATA,
    ensures
        r@ == art_dmx_frame(universe, sequence, payload@),
{
    let output = artnet_protocol::Output {
        sequence,
        port_address: artnet_protocol::PortAddress::try_from(universe).unwrap(),
        data: payload.clone().into(),
        ..artnet_protocol::Output::default()
    };
    artnet_protocol::ArtCommand::Output(output).write_to_buffer().unwrap()
}

/// Turn one outbound packet into the byte frame its device receives on the
/// wire. Fails exactly on a universe id above `ARTNET_MAX_PORT`, or on a
/// payload that is empty or longer than `ARTNET_MAX_DATA` bytes.
pub fn encode_packet(p: &OutputPacket) -> (r: Result<Vec<u8>, EncodeError>)
    ensures
        p.universe <= ARTNET_MAX_PORT && 1 <= p.payload@.len() <= ARTNET_MAX_DATA ==> (
            r matches Ok(b) && b@ == art_dmx_frame(p.universe, p.sequence, p.payload@)
        ),
        p.universe > ARTNET_MAX_PORT ==> r == Err::<Vec<u8>, EncodeError>(
            EncodeError::UniverseOutOfRange,
        ),
        p.universe <= ARTNET_MAX_PORT && !(1 <= p.payload@.len() <= ARTNET_MAX_DATA)
            ==> r == Err::<Vec<u8>, EncodeError>(EncodeError::PayloadSizeInvalid),
{
    if p.universe > ARTNET_MAX_PORT {
        Err(EncodeError::UniverseOutOfRange)
    } else if p.payload.len() == 0 || p.payload.len() > ARTNET_MAX_DATA {
        Err(EncodeError::PayloadSizeInvalid)
    } else {
        Ok(encode_art_dmx(p.universe, p.sequence, &p.payload))
    }
}

} // verus!
