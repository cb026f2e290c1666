use vstd::prelude::*;

verus! {

/// The text of one character: the character whose code is `b`.
pub(crate) fn byte_char_text(b: u8) -> (r: &'static str)
    ensures
        r@ == seq![b as char],
{
    match b {
        0u8 => {
            proof {
                reveal_strlit("\u{0}");
            }
            "\u{0}"
        },
        1u8 => {
            proof {
                reveal_strlit("\u{1}");
            }
            "\u{1}"
        },
        2u8 => {
            proof {
                reveal_strlit("\u{2}");
            }
            "\u{2}"
        },
        3u8 => {
            proof {
                reveal_strlit("\u{3}");
            }
            "\u{3}"
        },
        4u8 => {
            proof {
                reveal_strlit("\u{4}");
            }
            "\u{4}"
        },
        5u8 => {
            proof {
                reveal_strlit("\u{5}");
            }
            "\u{5}"
        },
        6u8 => {
            proof {
                reveal_strlit("\u{6}");
            }
            "\u{6}"
        },
        7u8 => {
            proof {
                reveal_strlit("\u{7}");
            }
            "\u{7}"
        },
        8u8 => {
            proof {
                reveal_strlit("\u{8}");
            }
            "\u{8}"
        },
        9u8 => {
            proof {
                reveal_strlit("\u{9}");
            }
            "\u{9}"
        },
        10u8 => {
            proof {
                reveal_strlit("\u{a}");
            }
            "\u{a}"
        },
        11u8 => {
            proof {
                reveal_strlit("\u{b}");
            }
            "\u{b}"
        },
        12u8 => {
            proof {
                reveal_strlit("\u{c}");
            }
            "\u{c}"
        },
        13u8 => {
            proof {
                reveal_strlit("\u{d}");
            }
            "\u{d}"
        },
        14u8 => {
            proof {
                reveal_strlit("\u{e}");
            }
            "\u{e}"
        },
        15u8 => {
            proof {
                reveal_strlit("\u{f}");
            }
            "\u{f}"
        },
        16u8 => {
            proof {
                reveal_strlit("\u{10}");
            }
            "\u{10}"
        },
        17u8 => {
            proof {
                reveal_strlit("\u{11}");
            }
            "\u{11}"
        },
        18u8 => {
            proof {
                reveal_strlit("\u{12}");
            }
            "\u{12}"
        },
        19u8 => {
            proof {
                reveal_strlit("\u{13}");
            }
            "\u{13}"
        },
        20u8 => {
            proof {
                reveal_strlit("\u{14}");
            }
            "\u{14}"
        },
        21u8 => {
            proof {
                reveal_strlit("\u{15}");
            }
            "\u{15}"
        },
        22u8 => {
            proof {
                reveal_strlit("\u{16}");
            }
            "\u{16}"
        },
        23u8 => {
            proof {
                reveal_strlit("\u{17}");
            }
            "\u{17}"
        },
        24u8 => {
            proof {
                reveal_strlit("\u{18}");
            }
            "\u{18}"
        },
        25u8 => {
            proof {
                reveal_strlit("\u{19}");
            }
            "\u{19}"
        },
        26u8 => {
            proof {
                reveal_strlit("\u{1a}");
            }
            "\u{1a}"
        },
        27u8 => {
            proof {
                reveal_strlit("\u{1b}");
            }
            "\u{1b}"
        },
        28u8 => {
            proof {
                reveal_strlit("\u{1c}");
            }
            "\u{1c}"
        },
        29u8 => {
            proof {
                reveal_strlit("\u{1d}");
            }
            "\u{1d}"
        },
        30u8 => {
            proof {
                reveal_strlit("\u{1e}");
            }
            "\u{1e}"
        },
        31u8 => {
            proof {
                reveal_strlit("\u{1f}");
            }
            "\u{1f}"
        },
        32u8 => {
            proof {
                reveal_strlit("\u{20}");
            }
            "\u{20}"
        },
        33u8 => {
            proof {
                reveal_strlit("\u{21}");
            }
            "\u{21}"
        },
        34u8 => {
            proof {
                reveal_strlit("\u{22}");
            }
            "\u{22}"
        },
        35u8 => {
            proof {
                reveal_strlit("\u{23}");
            }
            "\u{23}"
        },
        36u8 => {
            proof {
                reveal_strlit("\u{24}");
            }
            "\u{24}"
        },
        37u8 => {
            proof {
                reveal_strlit("\u{25}");
            }
            "\u{25}"
        },
        38u8 => {
            proof {
                reveal_strlit("\u{26}");
            }
            "\u{26}"
        },
        39u8 => {
            proof {
                reveal_strlit("\u{27}");
            }
            "\u{27}"
        },
        40u8 => {
            proof {
                reveal_strlit("\u{28}");
            }
            "\u{28}"
        },
        41u8 => {
            proof {
                reveal_strlit("\u{29}");
            }
            "\u{29}"
        },
        42u8 => {
            proof {
                reveal_strlit("\u{2a}");
            }
            "\u{2a}"
        },
        43u8 => {
            proof {
                reveal_strlit("\u{2b}");
            }
            "\u{2b}"
        },
        44u8 => {
            proof {
                reveal_strlit("\u{2c}");
            }
            "\u{2c}"
        },
        45u8 => {
            proof {
                reveal_strlit("\u{2d}");
            }
            "\u{2d}"
        },
        46u8 => {
            proof {
                reveal_strlit("\u{2e}");
            }
            "\u{2e}"
        },
        47u8 => {
            proof {
                reveal_strlit("\u{2f}");
            }
            "\u{2f}"
        },
        48u8 => {
            proof {
                reveal_strlit("\u{30}");
            }
            "\u{30}"
        },
        49u8 => {
            proof {
                reveal_strlit("\u{31}");
            }
            "\u{31}"
        },
        50u8 => {
            proof {
                reveal_strlit("\u{32}");
            }
            "\u{32}"
        },
        51u8 => {
            proof {
                reveal_strlit("\u{33}");
            }
            "\u{33}"
        },
        52u8 => {
            proof {
                reveal_strlit("\u{34}");
            }
            "\u{34}"
        },
        53u8 => {
            proof {
                reveal_strlit("\u{35}");
            }
            "\u{35}"
        },
        54u8 => {
            proof {
                reveal_strlit("\u{36}");
            }
            "\u{36}"
        },
        55u8 => {
            proof {
                reveal_strlit("\u{37}");
            }
            "\u{37}"
        },
        56u8 => {
            proof {
                reveal_strlit("\u{38}");
            }
            "\u{38}"
        },
        57u8 => {
            proof {
                reveal_strlit("\u{39}");
            }
            "\u{39}"
        },
        58u8 => {
            proof {
                reveal_strlit("\u{3a}");
            }
            "\u{3a}"
        },
        59u8 => {
            proof {
                reveal_strlit("\u{3b}");
            }
            "\u{3b}"
        },
        60u8 => {
            proof {
                reveal_strlit("\u{3c}");
            }
            "\u{3c}"
        },
        61u8 => {
            proof {
                reveal_strlit("\u{3d}");
            }
            "\u{3d}"
        },
        62u8 => {
            proof {
                reveal_strlit("\u{3e}");
            }
            "\u{3e}"
        },
        63u8 => {
            proof {
                reveal_strlit("\u{3f}");
            }
            "\u{3f}"
        },
        64u8 => {
            proof {
                reveal_strlit("\u{40}");
            }
            "\u{40}"
        },
        65u8 => {
            proof {
                reveal_strlit("\u{41}");
            }
            "\u{41}"
        },
        66u8 => {
            proof {
                reveal_strlit("\u{42}");
            }
            "\u{42}"
        },
        67u8 => {
            proof {
                reveal_strlit("\u{43}");
            }
            "\u{43}"
        },
        68u8 => {
            proof {
                reveal_strlit("\u{44}");
            }
            "\u{44}"
        },
        69u8 => {
            proof {
                reveal_strlit("\u{45}");
            }
            "\u{45}"
        },
        70u8 => {
            proof {
                reveal_strlit("\u{46}");
            }
            "\u{46}"
        },
        71u8 => {
            proof {
                reveal_strlit("\u{47}");
            }
            "\u{47}"
        },
        72u8 => {
            proof {
                reveal_strlit("\u{48}");
            }
            "\u{48}"
        },
        73u8 => {
            proof {
                reveal_strlit("\u{49}");
            }
            "\u{49}"
        },
        74u8 => {
            proof {
                reveal_strlit("\u{4a}");
            }
            "\u{4a}"
        },
        75u8 => {
            proof {
                reveal_strlit("\u{4b}");
            }
            "\u{4b}"
        },
        76u8 => {
            proof {
                reveal_strlit("\u{4c}");
            }
            "\u{4c}"
        },
        77u8 => {
            proof {
                reveal_strlit("\u{4d}");
            }
            "\u{4d}"
        },
        78u8 => {
            proof {
                reveal_strlit("\u{4e}");
            }
            "\u{4e}"
        },
        79u8 => {
            proof {
                reveal_strlit("\u{4f}");
            }
            "\u{4f}"
        },
        80u8 => {
            proof {
                reveal_strlit("\u{50}");
            }
            "\u{50}"
        },
        81u8 => {
            proof {
                reveal_strlit("\u{51}");
            }
            "\u{51}"
        },
        82u8 => {
            proof {
                reveal_strlit("\u{52}");
            }
            "\u{52}"
        },
        83u8 => {
            proof {
                reveal_strlit("\u{53}");
            }
            "\u{53}"
        },
        84u8 => {
            proof {
                reveal_strlit("\u{54}");
            }
            "\u{54}"
        },
        85u8 => {
            proof {
                reveal_strlit("\u{55}");
            }
            "\u{55}"
        },
        86u8 => {
            proof {
                reveal_strlit("\u{56}");
            }
            "\u{56}"
        },
        87u8 => {
            proof {
                reveal_strlit("\u{57}");
            }
            "\u{57}"
        },
        88u8 => {
            proof {
                reveal_strlit("\u{58}");
            }
            "\u{58}"
        },
        89u8 => {
            proof {
                reveal_strlit("\u{59}");
            }
            "\u{59}"
        },
        90u8 => {
            proof {
                reveal_strlit("\u{5a}");
            }
            "\u{5a}"
        },
        91u8 => {
            proof {
                reveal_strlit("\u{5b}");
            }
            "\u{5b}"
        },
        92u8 => {
            proof {
                reveal_strlit("\u{5c}");
            }
            "\u{5c}"
        },
        93u8 => {
            proof {
                reveal_strlit("\u{5d}");
            }
            "\u{5d}"
        },
        94u8 => {
            proof {
                reveal_strlit("\u{5e}");
            }
            "\u{5e}"
        },
        95u8 => {
            proof {
                reveal_strlit("\u{5f}");
            }
            "\u{5f}"
        },
        96u8 => {
            proof {
                reveal_strlit("\u{60}");
            }
            "\u{60}"
        },
        97u8 => {
            proof {
                reveal_strlit("\u{61}");
            }
            "\u{61}"
        },
        98u8 => {
            proof {
                reveal_strlit("\u{62}");
            }
            "\u{62}"
        },
        99u8 => {
            proof {
                reveal_strlit("\u{63}");
            }
            "\u{63}"
        },
        100u8 => {
            proof {
                reveal_strlit("\u{64}");
            }
            "\u{64}"
        },
        101u8 => {
            proof {
                reveal_strlit("\u{65}");
            }
            "\u{65}"
        },
        102u8 => {
            proof {
                reveal_strlit("\u{66}");
            }
            "\u{66}"
        },
        103u8 => {
            proof {
                reveal_strlit("\u{67}");
            }
            "\u{67}"
        },
        104u8 => {
            proof {
                reveal_strlit("\u{68}");
            }
            "\u{68}"
        },
        105u8 => {
            proof {
                reveal_strlit("\u{69}");
            }
            "\u{69}"
        },
        106u8 => {
            proof {
                reveal_strlit("\u{6a}");
            }
            "\u{6a}"
        },
        107u8 => {
            proof {
                reveal_strlit("\u{6b}");
            }
            "\u{6b}"
        },
        108u8 => {
            proof {
                reveal_strlit("\u{6c}");
            }
            "\u{6c}"
        },
        109u8 => {
            proof {
                reveal_strlit("\u{6d}");
            }
            "\u{6d}"
        },
        110u8 => {
            proof {
                reveal_strlit("\u{6e}");
            }
            "\u{6e}"
        },
        111u8 => {
            proof {
                reveal_strlit("\u{6f}");
            }
            "\u{6f}"
        },
        112u8 => {
            proof {
                reveal_strlit("\u{70}");
            }
            "\u{70}"
        },
        113u8 => {
            proof {
                reveal_strlit("\u{71}");
            }
            "\u{71}"
        },
        114u8 => {
            proof {
                reveal_strlit("\u{72}");
            }
            "\u{72}"
        },
        115u8 => {
            proof {
                reveal_strlit("\u{73}");
            }
            "\u{73}"
        },
        116u8 => {
            proof {
                reveal_strlit("\u{74}");
            }
            "\u{74}"
        },
        117u8 => {
            proof {
                reveal_strlit("\u{75}");
            }
            "\u{75}"
        },
        118u8 => {
            proof {
                reveal_strlit("\u{76}");
            }
            "\u{76}"
        },
        119u8 => {
            proof {
                reveal_strlit("\u{77}");
            }
            "\u{77}"
        },
        120u8 => {
            proof {
                reveal_strlit("\u{78}");
            }
            "\u{78}"
        },
        121u8 => {
            proof {
                reveal_strlit("\u{79}");
            }
            "\u{79}"
        },
        122u8 => {
            proof {
                reveal_strlit("\u{7a}");
            }
            "\u{7a}"
        },
        123u8 => {
            proof {
                reveal_strlit("\u{7b}");
            }
            "\u{7b}"
        },
        124u8 => {
            proof {
                reveal_strlit("\u{7c}");
            }
            "\u{7c}"
        },
        125u8 => {
            proof {
                reveal_strlit("\u{7d}");
            }
            "\u{7d}"
        },
        126u8 => {
            proof {
                reveal_strlit("\u{7e}");
            }
            "\u{7e}"
        },
        127u8 => {
            proof {
                reveal_strlit("\u{7f}");
            }
            "\u{7f}"
        },
        128u8 => {
            proof {
                reveal_strlit("\u{80}");
            }
            "\u{80}"
        },
        129u8 => {
            proof {
                reveal_strlit("\u{81}");
            }
            "\u{81}"
        },
        130u8 => {
            proof {
                reveal_strlit("\u{82}");
            }
            "\u{82}"
        },
        131u8 => {
            proof {
                reveal_strlit("\u{83}");
            }
            "\u{83}"
        },
        132u8 => {
            proof {
                reveal_strlit("\u{84}");
            }
            "\u{84}"
        },
        133u8 => {
            proof {
                reveal_strlit("\u{85}");
            }
            "\u{85}"
        },
        134u8 => {
            proof {
                reveal_strlit("\u{86}");
            }
            "\u{86}"
        },
        135u8 => {
            proof {
                reveal_strlit("\u{87}");
            }
            "\u{87}"
        },
        136u8 => {
            proof {
                reveal_strlit("\u{88}");
            }
            "\u{88}"
        },
        137u8 => {
            proof {
                reveal_strlit("\u{89}");
            }
            "\u{89}"
        },
        138u8 => {
            proof {
                reveal_strlit("\u{8a}");
            }
            "\u{8a}"
        },
        139u8 => {
            proof {
                reveal_strlit("\u{8b}");
            }
            "\u{8b}"
        },
        140u8 => {
            proof {
                reveal_strlit("\u{8c}");
            }
            "\u{8c}"
        },
        141u8 => {
            proof {
                reveal_strlit("\u{8d}");
            }
            "\u{8d}"
        },
        142u8 => {
            proof {
                reveal_strlit("\u{8e}");
            }
            "\u{8e}"
        },
        143u8 => {
            proof {
                reveal_strlit("\u{8f}");
            }
            "\u{8f}"
        },
        144u8 => {
            proof {
                reveal_strlit("\u{90}");
            }
            "\u{90}"
        },
        145u8 => {
            proof {
                reveal_strlit("\u{91}");
            }
            "\u{91}"
        },
        146u8 => {
            proof {
                reveal_strlit("\u{92}");
            }
            "\u{92}"
        },
        147u8 => {
            proof {
                reveal_strlit("\u{93}");
            }
            "\u{93}"
        },
        148u8 => {
            proof {
                reveal_strlit("\u{94}");
            }
            "\u{94}"
        },
        149u8 => {
            proof {
                reveal_strlit("\u{95}");
            }
            "\u{95}"
        },
        150u8 => {
            proof {
                reveal_strlit("\u{96}");
            }
            "\u{96}"
        },
        151u8 => {
            proof {
                reveal_strlit("\u{97}");
            }
            "\u{97}"
        },
        152u8 => {
            proof {
                reveal_strlit("\u{98}");
            }
            "\u{98}"
        },
        153u8 => {
            proof {
                reveal_strlit("\u{99}");
            }
            "\u{99}"
        },
        154u8 => {
            proof {
                reveal_strlit("\u{9a}");
            }
            "\u{9a}"
        },
        155u8 => {
            proof {
                reveal_strlit("\u{9b}");
            }
            "\u{9b}"
        },
        156u8 => {
            proof {
                reveal_strlit("\u{9c}");
            }
            "\u{9c}"
        },
        157u8 => {
            proof {
                reveal_strlit("\u{9d}");
            }
            "\u{9d}"
        },
        158u8 => {
            proof {
                reveal_strlit("\u{9e}");
            }
            "\u{9e}"
        },
        159u8 => {
            proof {
                reveal_strlit("\u{9f}");
            }
            "\u{9f}"
        },
        160u8 => {
            proof {
                reveal_strlit("\u{a0}");
            }
            "\u{a0}"
        },
        161u8 => {
            proof {
                reveal_strlit("\u{a1}");
            }
            "\u{a1}"
        },
        162u8 => {
            proof {
                reveal_strlit("\u{a2}");
            }
            "\u{a2}"
        },
        163u8 => {
            proof {
                reveal_strlit("\u{a3}");
            }
            "\u{a3}"
        },
        164u8 => {
            proof {
                reveal_strlit("\u{a4}");
            }
            "\u{a4}"
        },
        165u8 => {
            proof {
                reveal_strlit("\u{a5}");
            }
            "\u{a5}"
        },
        166u8 => {
            proof {
                reveal_strlit("\u{a6}");
            }
            "\u{a6}"
        },
        167u8 => {
            proof {
                reveal_strlit("\u{a7}");
            }
            "\u{a7}"
        },
        168u8 => {
            proof {
                reveal_strlit("\u{a8}");
            }
            "\u{a8}"
        },
        169u8 => {
            proof {
                reveal_strlit("\u{a9}");
            }
            "\u{a9}"
        },
        170u8 => {
            proof {
                reveal_strlit("\u{aa}");
            }
            "\u{aa}"
        },
        171u8 => {
            proof {
                reveal_strlit("\u{ab}");
            }
            "\u{ab}"
        },
        172u8 => {
            proof {
                reveal_strlit("\u{ac}");
            }
            "\u{ac}"
        },
        173u8 => {
            proof {
                reveal_strlit("\u{ad}");
            }
            "\u{ad}"
        },
        174u8 => {
            proof {
                reveal_strlit("\u{ae}");
            }
            "\u{ae}"
        },
        175u8 => {
            proof {
                reveal_strlit("\u{af}");
            }
            "\u{af}"
        },
        176u8 => {
            proof {
                reveal_strlit("\u{b0}");
            }
            "\u{b0}"
        },
        177u8 => {
            proof {
                reveal_strlit("\u{b1}");
            }
            "\u{b1}"
        },
        178u8 => {
            proof {
                reveal_strlit("\u{b2}");
            }
            "\u{b2}"
        },
        179u8 => {
            proof {
                reveal_strlit("\u{b3}");
            }
            "\u{b3}"
        },
        180u8 => {
            proof {
                reveal_strlit("\u{b4}");
            }
            "\u{b4}"
        },
        181u8 => {
            proof {
                reveal_strlit("\u{b5}");
            }
            "\u{b5}"
        },
        182u8 => {
            proof {
                reveal_strlit("\u{b6}");
            }
            "\u{b6}"
        },
        183u8 => {
            proof {
                reveal_strlit("\u{b7}");
            }
            "\u{b7}"
        },
        184u8 => {
            proof {
                reveal_strlit("\u{b8}");
            }
            "\u{b8}"
        },
        185u8 => {
            proof {
                reveal_strlit("\u{b9}");
            }
            "\u{b9}"
        },
        186u8 => {
            proof {
                reveal_strlit("\u{ba}");
            }
            "\u{ba}"
        },
        187u8 => {
            proof {
                reveal_strlit("\u{bb}");
            }
            "\u{bb}"
        },
        188u8 => {
            proof {
                reveal_strlit("\u{bc}");
            }
            "\u{bc}"
        },
        189u8 => {
            proof {
                reveal_strlit("\u{bd}");
            }
            "\u{bd}"
        },
        190u8 => {
            proof {
                reveal_strlit("\u{be}");
            }
            "\u{be}"
        },
        191u8 => {
            proof {
                reveal_strlit("\u{bf}");
            }
            "\u{bf}"
        },
        192u8 => {
            proof {
                reveal_strlit("\u{c0}");
            }
            "\u{c0}"
        },
        193u8 => {
            proof {
                reveal_strlit("\u{c1}");
            }
            "\u{c1}"
        },
        194u8 => {
            proof {
                reveal_strlit("\u{c2}");
            }
            "\u{c2}"
        },
        195u8 => {
            proof {
                reveal_strlit("\u{c3}");
            }
            "\u{c3}"
        },
        196u8 => {
            proof {
                reveal_strlit("\u{c4}");
            }
            "\u{c4}"
        },
        197u8 => {
            proof {
                reveal_strlit("\u{c5}");
            }
            "\u{c5}"
        },
        198u8 => {
            proof {
                reveal_strlit("\u{c6}");
            }
            "\u{c6}"
        },
        199u8 => {
            proof {
                reveal_strlit("\u{c7}");
            }
            "\u{c7}"
        },
        200u8 => {
            proof {
                reveal_strlit("\u{c8}");
            }
            "\u{c8}"
        },
        201u8 => {
            proof {
                reveal_strlit("\u{c9}");
            }
            "\u{c9}"
        },
        202u8 => {
            proof {
                reveal_strlit("\u{ca}");
            }
            "\u{ca}"
        },
        203u8 => {
            proof {
                reveal_strlit("\u{cb}");
            }
            "\u{cb}"
        },
        204u8 => {
            proof {
                reveal_strlit("\u{cc}");
            }
            "\u{cc}"
        },
        205u8 => {
            proof {
                reveal_strlit("\u{cd}");
            }
            "\u{cd}"
        },
        206u8 => {
            proof {
                reveal_strlit("\u{ce}");
            }
            "\u{ce}"
        },
        207u8 => {
            proof {
                reveal_strlit("\u{cf}");
            }
            "\u{cf}"
        },
        208u8 => {
            proof {
                reveal_strlit("\u{d0}");
            }
            "\u{d0}"
        },
        209u8 => {
            proof {
                reveal_strlit("\u{d1}");
            }
            "\u{d1}"
        },
        210u8 => {
            proof {
                reveal_strlit("\u{d2}");
            }
            "\u{d2}"
        },
        211u8 => {
            proof {
                reveal_strlit("\u{d3}");
            }
            "\u{d3}"
        },
        212u8 => {
            proof {
                reveal_strlit("\u{d4}");
            }
            "\u{d4}"
        },
        213u8 => {
            proof {
                reveal_strlit("\u{d5}");
            }
            "\u{d5}"
        },
        214u8 => {
            proof {
                reveal_strlit("\u{d6}");
            }
            "\u{d6}"
        },
        215u8 => {
            proof {
                reveal_strlit("\u{d7}");
            }
            "\u{d7}"
        },
        216u8 => {
            proof {
                reveal_strlit("\u{d8}");
            }
            "\u{d8}"
        },
        217u8 => {
            proof {
                reveal_strlit("\u{d9}");
            }
            "\u{d9}"
        },
        218u8 => {
            proof {
                reveal_strlit("\u{da}");
            }
            "\u{da}"
        },
        219u8 => {
            proof {
                reveal_strlit("\u{db}");
            }
            "\u{db}"
        },
        220u8 => {
            proof {
                reveal_strlit("\u{dc}");
            }
            "\u{dc}"
        },
        221u8 => {
            proof {
                reveal_strlit("\u{dd}");
            }
            "\u{dd}"
        },
        222u8 => {
            proof {
                reveal_strlit("\u{de}");
            }
            "\u{de}"
        },
        223u8 => {
            proof {
                reveal_strlit("\u{df}");
            }
            "\u{df}"
        },
        224u8 => {
            proof {
                reveal_strlit("\u{e0}");
            }
            "\u{e0}"
        },
        225u8 => {
            proof {
                reveal_strlit("\u{e1}");
            }
            "\u{e1}"
        },
        226u8 => {
            proof {
                reveal_strlit("\u{e2}");
            }
            "\u{e2}"
        },
        227u8 => {
            proof {
                reveal_strlit("\u{e3}");
            }
            "\u{e3}"
        },
        228u8 => {
            proof {
                reveal_strlit("\u{e4}");
            }
            "\u{e4}"
        },
        229u8 => {
            proof {
                reveal_strlit("\u{e5}");
            }
            "\u{e5}"
        },
        230u8 => {
            proof {
                reveal_strlit("\u{e6}");
            }
            "\u{e6}"
        },
        231u8 => {
            proof {
                reveal_strlit("\u{e7}");
            }
            "\u{e7}"
        },
        232u8 => {
            proof {
                reveal_strlit("\u{e8}");
            }
            "\u{e8}"
        },
        233u8 => {
            proof {
                reveal_strlit("\u{e9}");
            }
            "\u{e9}"
        },
        234u8 => {
            proof {
                reveal_strlit("\u{ea}");
            }
            "\u{ea}"
        },
        235u8 => {
            proof {
                reveal_strlit("\u{eb}");
            }
            "\u{eb}"
        },
        236u8 => {
            proof {
                reveal_strlit("\u{ec}");
            }
            "\u{ec}"
        },
        237u8 => {
            proof {
                reveal_strlit("\u{ed}");
            }
            "\u{ed}"
        },
        238u8 => {
            proof {
                reveal_strlit("\u{ee}");
            }
            "\u{ee}"
        },
        239u8 => {
            proof {
                reveal_strlit("\u{ef}");
            }
            "\u{ef}"
        },
        240u8 => {
            proof {
                reveal_strlit("\u{f0}");
            }
            "\u{f0}"
        },
        241u8 => {
            proof {
                reveal_strlit("\u{f1}");
            }
            "\u{f1}"
        },
        242u8 => {
            proof {
                reveal_strlit("\u{f2}");
            }
            "\u{f2}"
        },
        243u8 => {
            proof {
                reveal_strlit("\u{f3}");
            }
            "\u{f3}"
        },
        244u8 => {
            proof {
                reveal_strlit("\u{f4}");
            }
            "\u{f4}"
        },
        245u8 => {
            proof {
                reveal_strlit("\u{f5}");
            }
            "\u{f5}"
        },
        246u8 => {
            proof {
                reveal_strlit("\u{f6}");
            }
            "\u{f6}"
        },
        247u8 => {
            proof {
                reveal_strlit("\u{f7}");
            }
            "\u{f7}"
        },
        248u8 => {
            proof {
                reveal_strlit("\u{f8}");
            }
            "\u{f8}"
        },
        249u8 => {
            proof {
                reveal_strlit("\u{f9}");
            }
            "\u{f9}"
        },
        250u8 => {
            proof {
                reveal_strlit("\u{fa}");
            }
            "\u{fa}"
        },
        251u8 => {
            proof {
                reveal_strlit("\u{fb}");
            }
            "\u{fb}"
        },
        252u8 => {
            proof {
                reveal_strlit("\u{fc}");
            }
            "\u{fc}"
        },
        253u8 => {
            proof {
                reveal_strlit("\u{fd}");
            }
            "\u{fd}"
        },
        254u8 => {
            proof {
                reveal_strlit("\u{fe}");
            }
            "\u{fe}"
        },
        _ => {
            proof {
                reveal_strlit("\u{ff}");
            }
            "\u{ff}"
        },
    }
}

} // verus!
