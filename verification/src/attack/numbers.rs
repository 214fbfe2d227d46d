//! The multipliers in use and the number of relevant squares of each square.

use vstd::prelude::*;

verus! {

/// The number of squares in the relevant mask of a bishop, for each square.
pub const BISHOP_OCC_BITCOUNT: [usize; 64] = [
    6, 5, 5, 5, 5, 5, 5, 6,
    5, 5, 5, 5, 5, 5, 5, 5,
    5, 5, 7, 7, 7, 7, 5, 5,
    5, 5, 7, 9, 9, 7, 5, 5,
    5, 5, 7, 9, 9, 7, 5, 5,
    5, 5, 7, 7, 7, 7, 5, 5,
    5, 5, 5, 5, 5, 5, 5, 5,
    6, 5, 5, 5, 5, 5, 5, 6,
];

/// The number of squares in the relevant mask of a rook, for each square.
pub const ROOK_OCC_BITCOUNT: [usize; 64] = [
    12, 11, 11, 11, 11, 11, 11, 12,
    11, 10, 10, 10, 10, 10, 10, 11,
    11, 10, 10, 10, 10, 10, 10, 11,
    11, 10, 10, 10, 10, 10, 10, 11,
    11, 10, 10, 10, 10, 10, 10, 11,
    11, 10, 10, 10, 10, 10, 10, 11,
    11, 10, 10, 10, 10, 10, 10, 11,
    12, 11, 11, 11, 11, 11, 11, 12,
];

/// A multiplier for the bishop's table of each square.
pub const BISHOP_MAGICS: [u64; 64] = [
    0x0140c80810488022, 0x0020021c01142000, 0x00308c2080200102, 0x0004040880000a09,
    0x0824042080000001, 0x00c1010840807080, 0x810c010403200000, 0x49ce404044202081,
    0x4405048410020200, 0x0000042104440080, 0x0801c12112008003, 0x0100080a43014001,
    0x0000020210010000, 0x0110020110080990, 0x0800004804042000, 0x0000002434020800,
    0x00c108e014890204, 0x0004040210440100, 0x4808001000801012, 0x0008004620801080,
    0x0481000290400a01, 0x0001000180a00921, 0x1204010900a80492, 0x0a88400024041c00,
    0x1002100088501014, 0x005045040818008c, 0x0002080081004408, 0x0208280005820002,
    0x0509010040104008, 0x8010004000241000, 0x8908108440540400, 0x0142060800404240,
    0x0231101010402410, 0x0002011140241020, 0x100a002a00101180, 0x2001010800110041,
    0x8118022401224100, 0x4420092a40020800, 0x22d000c880031400, 0x000102108002a420,
    0x4008044404102020, 0x8000842402002000, 0x000200242400080e, 0x0030004202208802,
    0x0000011214000601, 0x10c0008099011081, 0x10080104608a0c00, 0x0002285d00202700,
    0x009a182414050000, 0x020100a210223022, 0x0000002c02080102, 0x0000000020884010,
    0x0280029002022040, 0x8250102490342010, 0x0040020464048080, 0x4120040102042200,
    0x280a010401018800, 0x8010008084104200, 0x009009002484501a, 0x1a08830080420208,
    0x2000064022604100, 0x0012400420044101, 0x0040042818810c00, 0x1024211464008200,
];

/// A multiplier for the rook's table of each square.
pub const ROOK_MAGICS: [u64; 64] = [
    0x818001c000802018, 0xa240100020004000, 0x0100081041002000, 0x1080048010000800,
    0x8600020020040810, 0x0580018002004400, 0x1080020000800100, 0x020000204a088401,
    0x4000800080204000, 0x0040804000200080, 0x0000801000200080, 0x0222000c10204200,
    0x0042000600081020, 0x00a2001004080200, 0x1000800100800200, 0x0082000092010044,
    0x0800848000400420, 0x0030044040002001, 0x8000110041002004, 0x00004200200a0010,
    0x0810808004000800, 0xc028808002000400, 0x0280040090080201, 0x0804020000508104,
    0x0080400480088024, 0x0400200440100241, 0x0401001100200040, 0x0000100080800800,
    0x0008010100041008, 0x8000020080800400, 0x1000012400024830, 0x0004008200210054,
    0x08084a0082002100, 0x4080201000404000, 0xc000102001004100, 0x0004082101001002,
    0x0009820800800400, 0x900c800400800200, 0x9040080204008150, 0x80b0140446000493,
    0x6040244000828000, 0x0210002000504000, 0x0015002002110040, 0x0041001000210008,
    0x0001004800050010, 0x0002000804010100, 0x5008081002040081, 0x00220040a1020004,
    0x0101400120800180, 0x2040002000c08180, 0x1120001000480040, 0x18001020400a0200,
    0x0004050010080100, 0x1023020080040080, 0x0001080102100400, 0x0001000282004300,
    0x0190401100800021, 0x0805854001021021, 0x600010400c200101, 0x0010210009100005,
    0x1001001002080005, 0x9801000c00080a29, 0x2006080a45029014, 0x0008804581022c02,
];

/// The bit counts as a vector.
pub fn occ_bitcounts(rook: bool) -> (v: Vec<usize>)
    ensures
        v@ == (if rook {
            ROOK_OCC_BITCOUNT@
        } else {
            BISHOP_OCC_BITCOUNT@
        }),
{
    let mut v: Vec<usize> = Vec::new();
    let mut i: usize = 0;
    while i < 64
        invariant
            i <= 64,
            v@.len() == i,
            forall|k: int|
                0 <= k < i ==> #[trigger] v@[k] == (if rook {
                    ROOK_OCC_BITCOUNT@[k]
                } else {
                    BISHOP_OCC_BITCOUNT@[k]
                }),
        decreases 64 - i,
    {
        if rook {
            v.push(ROOK_OCC_BITCOUNT[i]);
        } else {
            v.push(BISHOP_OCC_BITCOUNT[i]);
        }
        i += 1;
    }
    assert(v@ =~= (if rook {
        ROOK_OCC_BITCOUNT@
    } else {
        BISHOP_OCC_BITCOUNT@
    }));
    v
}

/// The multipliers as a vector.
pub fn magic_numbers(rook: bool) -> (v: Vec<u64>)
    ensures
        v@ == (if rook {
            ROOK_MAGICS@
        } else {
            BISHOP_MAGICS@
        }),
{
    let mut v: Vec<u64> = Vec::new();
    let mut i: usize = 0;
    while i < 64
        invariant
            i <= 64,
            v@.len() == i,
            forall|k: int|
                0 <= k < i ==> #[trigger] v@[k] == (if rook {
                    ROOK_MAGICS@[k]
                } else {
                    BISHOP_MAGICS@[k]
                }),
        decreases 64 - i,
    {
        if rook {
            v.push(ROOK_MAGICS[i]);
        } else {
            v.push(BISHOP_MAGICS[i]);
        }
        i += 1;
    }
    assert(v@ =~= (if rook {
        ROOK_MAGICS@
    } else {
        BISHOP_MAGICS@
    }));
    v
}

} // verus!
