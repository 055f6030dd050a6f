use vstd::arithmetic::div_mod::*;
use vstd::arithmetic::mul::*;
use vstd::prelude::*;

use crate::traits::{Conj, Field, One};

verus! {

/// The prime modulus of `Residue` arithmetic (the largest prime below 2^16,
/// so that a product of two residues fits in a `u64`).
pub const MODULUS: u64 = 65521;

/// An element of the prime field of integers modulo `MODULUS`.
///
/// Arithmetic on residues is exact, which makes this the scalar type of
/// choice for computations whose results must be reproduced bit for bit.
#[derive(Clone, Copy, PartialEq, Eq, Debug, Structural)]
pub struct Residue {
    pub v: u64,
}

/// The residue of an integer.
pub open spec fn residue_of(x: int) -> Residue {
    Residue { v: (x % (MODULUS as int)) as u64 }
}

/// The extended Euclidean algorithm on `(old_r, r)`, tracking modulo
/// `MODULUS` the coefficient `s` of the residue being inverted: returns the
/// coefficient that belongs to the last nonzero remainder.
pub open spec fn euclid_coef(old_r: nat, r: nat, old_s: int, s: int) -> int
    decreases r,
{
    if r == 0 {
        old_s
    } else {
        euclid_coef(r, old_r % r, s, (old_s - (old_r / r) * s) % (MODULUS as int))
    }
}

/// The last nonzero remainder of the Euclidean algorithm on `(old_r, r)`.
pub open spec fn euclid_gcd(old_r: nat, r: nat) -> nat
    decreases r,
{
    if r == 0 {
        old_r
    } else {
        euclid_gcd(r, old_r % r)
    }
}

/// The modular inverse, by the extended Euclidean algorithm on the
/// canonical value and `MODULUS` (the additive identity maps to itself).
pub open spec fn inverse_spec(b: Residue) -> Residue {
    residue_of(euclid_coef(((b.v as int) % (MODULUS as int)) as nat, MODULUS as nat, 1, 0))
}

proof fn lemma_residue_of_valid(x: int)
    ensures
        residue_of(x).v < MODULUS,
        residue_of(x).v as int == x % (MODULUS as int),
{
    lemma_mod_bound(x, MODULUS as int);
}

proof fn lemma_residue_of_small(x: int)
    requires
        0 <= x < MODULUS,
    ensures
        residue_of(x) == (Residue { v: x as u64 }),
{
    lemma_small_mod(x as nat, MODULUS as nat);
}

/// Residue arithmetic is integer arithmetic modulo `MODULUS`: operands
/// congruent to `x` and `y` give results congruent to `x + y`, `x - y` and `x * y`.
pub proof fn lemma_congruent_ops(a: Residue, b: Residue, x: int, y: int)
    requires
        a.v as int % (MODULUS as int) == x % (MODULUS as int),
        b.v as int % (MODULUS as int) == y % (MODULUS as int),
    ensures
        a.add_spec(b).v as int % (MODULUS as int) == (x + y) % (MODULUS as int),
        a.sub_spec(b).v as int % (MODULUS as int) == (x - y) % (MODULUS as int),
        a.mul_spec(b).v as int % (MODULUS as int) == (x * y) % (MODULUS as int),
        a.add_spec(b).v < MODULUS,
        a.sub_spec(b).v < MODULUS,
        a.mul_spec(b).v < MODULUS,
{
    let p = MODULUS as int;
    let (av, bv) = (a.v as int, b.v as int);
    lemma_residue_of_valid(av + bv);
    lemma_residue_of_valid(av - bv);
    lemma_residue_of_valid(av * bv);
    lemma_mod_twice(av + bv, p);
    lemma_mod_twice(av - bv, p);
    lemma_mod_twice(av * bv, p);
    lemma_add_mod_noop(av, bv, p);
    lemma_add_mod_noop(x, y, p);
    lemma_sub_mod_noop(av, bv, p);
    lemma_sub_mod_noop(x, y, p);
    lemma_mul_mod_noop(av, bv, p);
    lemma_mul_mod_noop(x, y, p);
}

/// Two canonical residues congruent to the same integer are equal.
proof fn lemma_congruent_equal(a: Residue, b: Residue, x: int)
    requires
        a.v < MODULUS,
        b.v < MODULUS,
        a.v as int % (MODULUS as int) == x % (MODULUS as int),
        b.v as int % (MODULUS as int) == x % (MODULUS as int),
    ensures
        a == b,
{
    lemma_small_mod(a.v as nat, MODULUS as nat);
    lemma_small_mod(b.v as nat, MODULUS as nat);
}

/// No `d` with `from <= d < 257` divides `MODULUS`.
pub open spec fn no_factor_from(from: nat) -> bool
    decreases 257 - from,
{
    if from >= 257 {
        true
    } else {
        (MODULUS as int) % (from as int) != 0 && no_factor_from(from + 1)
    }
}

/// Trial division of `MODULUS` by every `d` from 256 down to 2, each with its
/// quotient and remainder; 257 * 257 exceeds `MODULUS`, so this covers every
/// possible smallest factor.
proof fn lemma_no_small_factor()
    ensures
        no_factor_from(2),
{
    assert(no_factor_from(257));
    lemma_fundamental_div_mod_converse_mod(65521, 256, 255, 241);
    assert(no_factor_from(256));
    lemma_fundamental_div_mod_converse_mod(65521, 255, 256, 241);
    assert(no_factor_from(255));
    lemma_fundamental_div_mod_converse_mod(65521, 254, 257, 243);
    assert(no_factor_from(254));
    lemma_fundamental_div_mod_converse_mod(65521, 253, 258, 247);
    assert(no_factor_from(253));
    lemma_fundamental_div_mod_converse_mod(65521, 252, 260, 1);
    assert(no_factor_from(252));
    lemma_fundamental_div_mod_converse_mod(65521, 251, 261, 10);
    assert(no_factor_from(251));
    lemma_fundamental_div_mod_converse_mod(65521, 250, 262, 21);
    assert(no_factor_from(250));
    lemma_fundamental_div_mod_converse_mod(65521, 249, 263, 34);
    assert(no_factor_from(249));
    lemma_fundamental_div_mod_converse_mod(65521, 248, 264, 49);
    assert(no_factor_from(248));
    lemma_fundamental_div_mod_converse_mod(65521, 247, 265, 66);
    assert(no_factor_from(247));
    lemma_fundamental_div_mod_converse_mod(65521, 246, 266, 85);
    assert(no_factor_from(246));
    lemma_fundamental_div_mod_converse_mod(65521, 245, 267, 106);
    assert(no_factor_from(245));
    lemma_fundamental_div_mod_converse_mod(65521, 244, 268, 129);
    assert(no_factor_from(244));
    lemma_fundamental_div_mod_converse_mod(65521, 243, 269, 154);
    assert(no_factor_from(243));
    lemma_fundamental_div_mod_converse_mod(65521, 242, 270, 181);
    assert(no_factor_from(242));
    lemma_fundamental_div_mod_converse_mod(65521, 241, 271, 210);
    assert(no_factor_from(241));
    lemma_fundamental_div_mod_converse_mod(65521, 240, 273, 1);
    assert(no_factor_from(240));
    lemma_fundamental_div_mod_converse_mod(65521, 239, 274, 35);
    assert(no_factor_from(239));
    lemma_fundamental_div_mod_converse_mod(65521, 238, 275, 71);
    assert(no_factor_from(238));
    lemma_fundamental_div_mod_converse_mod(65521, 237, 276, 109);
    assert(no_factor_from(237));
    lemma_fundamental_div_mod_converse_mod(65521, 236, 277, 149);
    assert(no_factor_from(236));
    lemma_fundamental_div_mod_converse_mod(65521, 235, 278, 191);
    assert(no_factor_from(235));
    lemma_fundamental_div_mod_converse_mod(65521, 234, 280, 1);
    assert(no_factor_from(234));
    lemma_fundamental_div_mod_converse_mod(65521, 233, 281, 48);
    assert(no_factor_from(233));
    lemma_fundamental_div_mod_converse_mod(65521, 232, 282, 97);
    assert(no_factor_from(232));
    lemma_fundamental_div_mod_converse_mod(65521, 231, 283, 148);
    assert(no_factor_from(231));
    lemma_fundamental_div_mod_converse_mod(65521, 230, 284, 201);
    assert(no_factor_from(230));
    lemma_fundamental_div_mod_converse_mod(65521, 229, 286, 27);
    assert(no_factor_from(229));
    lemma_fundamental_div_mod_converse_mod(65521, 228, 287, 85);
    assert(no_factor_from(228));
    lemma_fundamental_div_mod_converse_mod(65521, 227, 288, 145);
    assert(no_factor_from(227));
    lemma_fundamental_div_mod_converse_mod(65521, 226, 289, 207);
    assert(no_factor_from(226));
    lemma_fundamental_div_mod_converse_mod(65521, 225, 291, 46);
    assert(no_factor_from(225));
    lemma_fundamental_div_mod_converse_mod(65521, 224, 292, 113);
    assert(no_factor_from(224));
    lemma_fundamental_div_mod_converse_mod(65521, 223, 293, 182);
    assert(no_factor_from(223));
    lemma_fundamental_div_mod_converse_mod(65521, 222, 295, 31);
    assert(no_factor_from(222));
    lemma_fundamental_div_mod_converse_mod(65521, 221, 296, 105);
    assert(no_factor_from(221));
    lemma_fundamental_div_mod_converse_mod(65521, 220, 297, 181);
    assert(no_factor_from(220));
    lemma_fundamental_div_mod_converse_mod(65521, 219, 299, 40);
    assert(no_factor_from(219));
    lemma_fundamental_div_mod_converse_mod(65521, 218, 300, 121);
    assert(no_factor_from(218));
    lemma_fundamental_div_mod_converse_mod(65521, 217, 301, 204);
    assert(no_factor_from(217));
    lemma_fundamental_div_mod_converse_mod(65521, 216, 303, 73);
    assert(no_factor_from(216));
    lemma_fundamental_div_mod_converse_mod(65521, 215, 304, 161);
    assert(no_factor_from(215));
    lemma_fundamental_div_mod_converse_mod(65521, 214, 306, 37);
    assert(no_factor_from(214));
    lemma_fundamental_div_mod_converse_mod(65521, 213, 307, 130);
    assert(no_factor_from(213));
    lemma_fundamental_div_mod_converse_mod(65521, 212, 309, 13);
    assert(no_factor_from(212));
    lemma_fundamental_div_mod_converse_mod(65521, 211, 310, 111);
    assert(no_factor_from(211));
    lemma_fundamental_div_mod_converse_mod(65521, 210, 312, 1);
    assert(no_factor_from(210));
    lemma_fundamental_div_mod_converse_mod(65521, 209, 313, 104);
    assert(no_factor_from(209));
    lemma_fundamental_div_mod_converse_mod(65521, 208, 315, 1);
    assert(no_factor_from(208));
    lemma_fundamental_div_mod_converse_mod(65521, 207, 316, 109);
    assert(no_factor_from(207));
    lemma_fundamental_div_mod_converse_mod(65521, 206, 318, 13);
    assert(no_factor_from(206));
    lemma_fundamental_div_mod_converse_mod(65521, 205, 319, 126);
    assert(no_factor_from(205));
    lemma_fundamental_div_mod_converse_mod(65521, 204, 321, 37);
    assert(no_factor_from(204));
    lemma_fundamental_div_mod_converse_mod(65521, 203, 322, 155);
    assert(no_factor_from(203));
    lemma_fundamental_div_mod_converse_mod(65521, 202, 324, 73);
    assert(no_factor_from(202));
    lemma_fundamental_div_mod_converse_mod(65521, 201, 325, 196);
    assert(no_factor_from(201));
    lemma_fundamental_div_mod_converse_mod(65521, 200, 327, 121);
    assert(no_factor_from(200));
    lemma_fundamental_div_mod_converse_mod(65521, 199, 329, 50);
    assert(no_factor_from(199));
    lemma_fundamental_div_mod_converse_mod(65521, 198, 330, 181);
    assert(no_factor_from(198));
    lemma_fundamental_div_mod_converse_mod(65521, 197, 332, 117);
    assert(no_factor_from(197));
    lemma_fundamental_div_mod_converse_mod(65521, 196, 334, 57);
    assert(no_factor_from(196));
    lemma_fundamental_div_mod_converse_mod(65521, 195, 336, 1);
    assert(no_factor_from(195));
    lemma_fundamental_div_mod_converse_mod(65521, 194, 337, 143);
    assert(no_factor_from(194));
    lemma_fundamental_div_mod_converse_mod(65521, 193, 339, 94);
    assert(no_factor_from(193));
    lemma_fundamental_div_mod_converse_mod(65521, 192, 341, 49);
    assert(no_factor_from(192));
    lemma_fundamental_div_mod_converse_mod(65521, 191, 343, 8);
    assert(no_factor_from(191));
    lemma_fundamental_div_mod_converse_mod(65521, 190, 344, 161);
    assert(no_factor_from(190));
    lemma_fundamental_div_mod_converse_mod(65521, 189, 346, 127);
    assert(no_factor_from(189));
    lemma_fundamental_div_mod_converse_mod(65521, 188, 348, 97);
    assert(no_factor_from(188));
    lemma_fundamental_div_mod_converse_mod(65521, 187, 350, 71);
    assert(no_factor_from(187));
    lemma_fundamental_div_mod_converse_mod(65521, 186, 352, 49);
    assert(no_factor_from(186));
    lemma_fundamental_div_mod_converse_mod(65521, 185, 354, 31);
    assert(no_factor_from(185));
    lemma_fundamental_div_mod_converse_mod(65521, 184, 356, 17);
    assert(no_factor_from(184));
    lemma_fundamental_div_mod_converse_mod(65521, 183, 358, 7);
    assert(no_factor_from(183));
    lemma_fundamental_div_mod_converse_mod(65521, 182, 360, 1);
    assert(no_factor_from(182));
    lemma_fundamental_div_mod_converse_mod(65521, 181, 361, 180);
    assert(no_factor_from(181));
    lemma_fundamental_div_mod_converse_mod(65521, 180, 364, 1);
    assert(no_factor_from(180));
    lemma_fundamental_div_mod_converse_mod(65521, 179, 366, 7);
    assert(no_factor_from(179));
    lemma_fundamental_div_mod_converse_mod(65521, 178, 368, 17);
    assert(no_factor_from(178));
    lemma_fundamental_div_mod_converse_mod(65521, 177, 370, 31);
    assert(no_factor_from(177));
    lemma_fundamental_div_mod_converse_mod(65521, 176, 372, 49);
    assert(no_factor_from(176));
    lemma_fundamental_div_mod_converse_mod(65521, 175, 374, 71);
    assert(no_factor_from(175));
    lemma_fundamental_div_mod_converse_mod(65521, 174, 376, 97);
    assert(no_factor_from(174));
    lemma_fundamental_div_mod_converse_mod(65521, 173, 378, 127);
    assert(no_factor_from(173));
    lemma_fundamental_div_mod_converse_mod(65521, 172, 380, 161);
    assert(no_factor_from(172));
    lemma_fundamental_div_mod_converse_mod(65521, 171, 383, 28);
    assert(no_factor_from(171));
    lemma_fundamental_div_mod_converse_mod(65521, 170, 385, 71);
    assert(no_factor_from(170));
    lemma_fundamental_div_mod_converse_mod(65521, 169, 387, 118);
    assert(no_factor_from(169));
    lemma_fundamental_div_mod_converse_mod(65521, 168, 390, 1);
    assert(no_factor_from(168));
    lemma_fundamental_div_mod_converse_mod(65521, 167, 392, 57);
    assert(no_factor_from(167));
    lemma_fundamental_div_mod_converse_mod(65521, 166, 394, 117);
    assert(no_factor_from(166));
    lemma_fundamental_div_mod_converse_mod(65521, 165, 397, 16);
    assert(no_factor_from(165));
    lemma_fundamental_div_mod_converse_mod(65521, 164, 399, 85);
    assert(no_factor_from(164));
    lemma_fundamental_div_mod_converse_mod(65521, 163, 401, 158);
    assert(no_factor_from(163));
    lemma_fundamental_div_mod_converse_mod(65521, 162, 404, 73);
    assert(no_factor_from(162));
    lemma_fundamental_div_mod_converse_mod(65521, 161, 406, 155);
    assert(no_factor_from(161));
    lemma_fundamental_div_mod_converse_mod(65521, 160, 409, 81);
    assert(no_factor_from(160));
    lemma_fundamental_div_mod_converse_mod(65521, 159, 412, 13);
    assert(no_factor_from(159));
    lemma_fundamental_div_mod_converse_mod(65521, 158, 414, 109);
    assert(no_factor_from(158));
    lemma_fundamental_div_mod_converse_mod(65521, 157, 417, 52);
    assert(no_factor_from(157));
    lemma_fundamental_div_mod_converse_mod(65521, 156, 420, 1);
    assert(no_factor_from(156));
    lemma_fundamental_div_mod_converse_mod(65521, 155, 422, 111);
    assert(no_factor_from(155));
    lemma_fundamental_div_mod_converse_mod(65521, 154, 425, 71);
    assert(no_factor_from(154));
    lemma_fundamental_div_mod_converse_mod(65521, 153, 428, 37);
    assert(no_factor_from(153));
    lemma_fundamental_div_mod_converse_mod(65521, 152, 431, 9);
    assert(no_factor_from(152));
    lemma_fundamental_div_mod_converse_mod(65521, 151, 433, 138);
    assert(no_factor_from(151));
    lemma_fundamental_div_mod_converse_mod(65521, 150, 436, 121);
    assert(no_factor_from(150));
    lemma_fundamental_div_mod_converse_mod(65521, 149, 439, 110);
    assert(no_factor_from(149));
    lemma_fundamental_div_mod_converse_mod(65521, 148, 442, 105);
    assert(no_factor_from(148));
    lemma_fundamental_div_mod_converse_mod(65521, 147, 445, 106);
    assert(no_factor_from(147));
    lemma_fundamental_div_mod_converse_mod(65521, 146, 448, 113);
    assert(no_factor_from(146));
    lemma_fundamental_div_mod_converse_mod(65521, 145, 451, 126);
    assert(no_factor_from(145));
    lemma_fundamental_div_mod_converse_mod(65521, 144, 455, 1);
    assert(no_factor_from(144));
    lemma_fundamental_div_mod_converse_mod(65521, 143, 458, 27);
    assert(no_factor_from(143));
    lemma_fundamental_div_mod_converse_mod(65521, 142, 461, 59);
    assert(no_factor_from(142));
    lemma_fundamental_div_mod_converse_mod(65521, 141, 464, 97);
    assert(no_factor_from(141));
    lemma_fundamental_div_mod_converse_mod(65521, 140, 468, 1);
    assert(no_factor_from(140));
    lemma_fundamental_div_mod_converse_mod(65521, 139, 471, 52);
    assert(no_factor_from(139));
    lemma_fundamental_div_mod_converse_mod(65521, 138, 474, 109);
    assert(no_factor_from(138));
    lemma_fundamental_div_mod_converse_mod(65521, 137, 478, 35);
    assert(no_factor_from(137));
    lemma_fundamental_div_mod_converse_mod(65521, 136, 481, 105);
    assert(no_factor_from(136));
    lemma_fundamental_div_mod_converse_mod(65521, 135, 485, 46);
    assert(no_factor_from(135));
    lemma_fundamental_div_mod_converse_mod(65521, 134, 488, 129);
    assert(no_factor_from(134));
    lemma_fundamental_div_mod_converse_mod(65521, 133, 492, 85);
    assert(no_factor_from(133));
    lemma_fundamental_div_mod_converse_mod(65521, 132, 496, 49);
    assert(no_factor_from(132));
    lemma_fundamental_div_mod_converse_mod(65521, 131, 500, 21);
    assert(no_factor_from(131));
    lemma_fundamental_div_mod_converse_mod(65521, 130, 504, 1);
    assert(no_factor_from(130));
    lemma_fundamental_div_mod_converse_mod(65521, 129, 507, 118);
    assert(no_factor_from(129));
    lemma_fundamental_div_mod_converse_mod(65521, 128, 511, 113);
    assert(no_factor_from(128));
    lemma_fundamental_div_mod_converse_mod(65521, 127, 515, 116);
    assert(no_factor_from(127));
    lemma_fundamental_div_mod_converse_mod(65521, 126, 520, 1);
    assert(no_factor_from(126));
    lemma_fundamental_div_mod_converse_mod(65521, 125, 524, 21);
    assert(no_factor_from(125));
    lemma_fundamental_div_mod_converse_mod(65521, 124, 528, 49);
    assert(no_factor_from(124));
    lemma_fundamental_div_mod_converse_mod(65521, 123, 532, 85);
    assert(no_factor_from(123));
    lemma_fundamental_div_mod_converse_mod(65521, 122, 537, 7);
    assert(no_factor_from(122));
    lemma_fundamental_div_mod_converse_mod(65521, 121, 541, 60);
    assert(no_factor_from(121));
    lemma_fundamental_div_mod_converse_mod(65521, 120, 546, 1);
    assert(no_factor_from(120));
    lemma_fundamental_div_mod_converse_mod(65521, 119, 550, 71);
    assert(no_factor_from(119));
    lemma_fundamental_div_mod_converse_mod(65521, 118, 555, 31);
    assert(no_factor_from(118));
    lemma_fundamental_div_mod_converse_mod(65521, 117, 560, 1);
    assert(no_factor_from(117));
    lemma_fundamental_div_mod_converse_mod(65521, 116, 564, 97);
    assert(no_factor_from(116));
    lemma_fundamental_div_mod_converse_mod(65521, 115, 569, 86);
    assert(no_factor_from(115));
    lemma_fundamental_div_mod_converse_mod(65521, 114, 574, 85);
    assert(no_factor_from(114));
    lemma_fundamental_div_mod_converse_mod(65521, 113, 579, 94);
    assert(no_factor_from(113));
    lemma_fundamental_div_mod_converse_mod(65521, 112, 585, 1);
    assert(no_factor_from(112));
    lemma_fundamental_div_mod_converse_mod(65521, 111, 590, 31);
    assert(no_factor_from(111));
    lemma_fundamental_div_mod_converse_mod(65521, 110, 595, 71);
    assert(no_factor_from(110));
    lemma_fundamental_div_mod_converse_mod(65521, 109, 601, 12);
    assert(no_factor_from(109));
    lemma_fundamental_div_mod_converse_mod(65521, 108, 606, 73);
    assert(no_factor_from(108));
    lemma_fundamental_div_mod_converse_mod(65521, 107, 612, 37);
    assert(no_factor_from(107));
    lemma_fundamental_div_mod_converse_mod(65521, 106, 618, 13);
    assert(no_factor_from(106));
    lemma_fundamental_div_mod_converse_mod(65521, 105, 624, 1);
    assert(no_factor_from(105));
    lemma_fundamental_div_mod_converse_mod(65521, 104, 630, 1);
    assert(no_factor_from(104));
    lemma_fundamental_div_mod_converse_mod(65521, 103, 636, 13);
    assert(no_factor_from(103));
    lemma_fundamental_div_mod_converse_mod(65521, 102, 642, 37);
    assert(no_factor_from(102));
    lemma_fundamental_div_mod_converse_mod(65521, 101, 648, 73);
    assert(no_factor_from(101));
    lemma_fundamental_div_mod_converse_mod(65521, 100, 655, 21);
    assert(no_factor_from(100));
    lemma_fundamental_div_mod_converse_mod(65521, 99, 661, 82);
    assert(no_factor_from(99));
    lemma_fundamental_div_mod_converse_mod(65521, 98, 668, 57);
    assert(no_factor_from(98));
    lemma_fundamental_div_mod_converse_mod(65521, 97, 675, 46);
    assert(no_factor_from(97));
    lemma_fundamental_div_mod_converse_mod(65521, 96, 682, 49);
    assert(no_factor_from(96));
    lemma_fundamental_div_mod_converse_mod(65521, 95, 689, 66);
    assert(no_factor_from(95));
    lemma_fundamental_div_mod_converse_mod(65521, 94, 697, 3);
    assert(no_factor_from(94));
    lemma_fundamental_div_mod_converse_mod(65521, 93, 704, 49);
    assert(no_factor_from(93));
    lemma_fundamental_div_mod_converse_mod(65521, 92, 712, 17);
    assert(no_factor_from(92));
    lemma_fundamental_div_mod_converse_mod(65521, 91, 720, 1);
    assert(no_factor_from(91));
    lemma_fundamental_div_mod_converse_mod(65521, 90, 728, 1);
    assert(no_factor_from(90));
    lemma_fundamental_div_mod_converse_mod(65521, 89, 736, 17);
    assert(no_factor_from(89));
    lemma_fundamental_div_mod_converse_mod(65521, 88, 744, 49);
    assert(no_factor_from(88));
    lemma_fundamental_div_mod_converse_mod(65521, 87, 753, 10);
    assert(no_factor_from(87));
    lemma_fundamental_div_mod_converse_mod(65521, 86, 761, 75);
    assert(no_factor_from(86));
    lemma_fundamental_div_mod_converse_mod(65521, 85, 770, 71);
    assert(no_factor_from(85));
    lemma_fundamental_div_mod_converse_mod(65521, 84, 780, 1);
    assert(no_factor_from(84));
    lemma_fundamental_div_mod_converse_mod(65521, 83, 789, 34);
    assert(no_factor_from(83));
    lemma_fundamental_div_mod_converse_mod(65521, 82, 799, 3);
    assert(no_factor_from(82));
    lemma_fundamental_div_mod_converse_mod(65521, 81, 808, 73);
    assert(no_factor_from(81));
    lemma_fundamental_div_mod_converse_mod(65521, 80, 819, 1);
    assert(no_factor_from(80));
    lemma_fundamental_div_mod_converse_mod(65521, 79, 829, 30);
    assert(no_factor_from(79));
    lemma_fundamental_div_mod_converse_mod(65521, 78, 840, 1);
    assert(no_factor_from(78));
    lemma_fundamental_div_mod_converse_mod(65521, 77, 850, 71);
    assert(no_factor_from(77));
    lemma_fundamental_div_mod_converse_mod(65521, 76, 862, 9);
    assert(no_factor_from(76));
    lemma_fundamental_div_mod_converse_mod(65521, 75, 873, 46);
    assert(no_factor_from(75));
    lemma_fundamental_div_mod_converse_mod(65521, 74, 885, 31);
    assert(no_factor_from(74));
    lemma_fundamental_div_mod_converse_mod(65521, 73, 897, 40);
    assert(no_factor_from(73));
    lemma_fundamental_div_mod_converse_mod(65521, 72, 910, 1);
    assert(no_factor_from(72));
    lemma_fundamental_div_mod_converse_mod(65521, 71, 922, 59);
    assert(no_factor_from(71));
    lemma_fundamental_div_mod_converse_mod(65521, 70, 936, 1);
    assert(no_factor_from(70));
    lemma_fundamental_div_mod_converse_mod(65521, 69, 949, 40);
    assert(no_factor_from(69));
    lemma_fundamental_div_mod_converse_mod(65521, 68, 963, 37);
    assert(no_factor_from(68));
    lemma_fundamental_div_mod_converse_mod(65521, 67, 977, 62);
    assert(no_factor_from(67));
    lemma_fundamental_div_mod_converse_mod(65521, 66, 992, 49);
    assert(no_factor_from(66));
    lemma_fundamental_div_mod_converse_mod(65521, 65, 1008, 1);
    assert(no_factor_from(65));
    lemma_fundamental_div_mod_converse_mod(65521, 64, 1023, 49);
    assert(no_factor_from(64));
    lemma_fundamental_div_mod_converse_mod(65521, 63, 1040, 1);
    assert(no_factor_from(63));
    lemma_fundamental_div_mod_converse_mod(65521, 62, 1056, 49);
    assert(no_factor_from(62));
    lemma_fundamental_div_mod_converse_mod(65521, 61, 1074, 7);
    assert(no_factor_from(61));
    lemma_fundamental_div_mod_converse_mod(65521, 60, 1092, 1);
    assert(no_factor_from(60));
    lemma_fundamental_div_mod_converse_mod(65521, 59, 1110, 31);
    assert(no_factor_from(59));
    lemma_fundamental_div_mod_converse_mod(65521, 58, 1129, 39);
    assert(no_factor_from(58));
    lemma_fundamental_div_mod_converse_mod(65521, 57, 1149, 28);
    assert(no_factor_from(57));
    lemma_fundamental_div_mod_converse_mod(65521, 56, 1170, 1);
    assert(no_factor_from(56));
    lemma_fundamental_div_mod_converse_mod(65521, 55, 1191, 16);
    assert(no_factor_from(55));
    lemma_fundamental_div_mod_converse_mod(65521, 54, 1213, 19);
    assert(no_factor_from(54));
    lemma_fundamental_div_mod_converse_mod(65521, 53, 1236, 13);
    assert(no_factor_from(53));
    lemma_fundamental_div_mod_converse_mod(65521, 52, 1260, 1);
    assert(no_factor_from(52));
    lemma_fundamental_div_mod_converse_mod(65521, 51, 1284, 37);
    assert(no_factor_from(51));
    lemma_fundamental_div_mod_converse_mod(65521, 50, 1310, 21);
    assert(no_factor_from(50));
    lemma_fundamental_div_mod_converse_mod(65521, 49, 1337, 8);
    assert(no_factor_from(49));
    lemma_fundamental_div_mod_converse_mod(65521, 48, 1365, 1);
    assert(no_factor_from(48));
    lemma_fundamental_div_mod_converse_mod(65521, 47, 1394, 3);
    assert(no_factor_from(47));
    lemma_fundamental_div_mod_converse_mod(65521, 46, 1424, 17);
    assert(no_factor_from(46));
    lemma_fundamental_div_mod_converse_mod(65521, 45, 1456, 1);
    assert(no_factor_from(45));
    lemma_fundamental_div_mod_converse_mod(65521, 44, 1489, 5);
    assert(no_factor_from(44));
    lemma_fundamental_div_mod_converse_mod(65521, 43, 1523, 32);
    assert(no_factor_from(43));
    lemma_fundamental_div_mod_converse_mod(65521, 42, 1560, 1);
    assert(no_factor_from(42));
    lemma_fundamental_div_mod_converse_mod(65521, 41, 1598, 3);
    assert(no_factor_from(41));
    lemma_fundamental_div_mod_converse_mod(65521, 40, 1638, 1);
    assert(no_factor_from(40));
    lemma_fundamental_div_mod_converse_mod(65521, 39, 1680, 1);
    assert(no_factor_from(39));
    lemma_fundamental_div_mod_converse_mod(65521, 38, 1724, 9);
    assert(no_factor_from(38));
    lemma_fundamental_div_mod_converse_mod(65521, 37, 1770, 31);
    assert(no_factor_from(37));
    lemma_fundamental_div_mod_converse_mod(65521, 36, 1820, 1);
    assert(no_factor_from(36));
    lemma_fundamental_div_mod_converse_mod(65521, 35, 1872, 1);
    assert(no_factor_from(35));
    lemma_fundamental_div_mod_converse_mod(65521, 34, 1927, 3);
    assert(no_factor_from(34));
    lemma_fundamental_div_mod_converse_mod(65521, 33, 1985, 16);
    assert(no_factor_from(33));
    lemma_fundamental_div_mod_converse_mod(65521, 32, 2047, 17);
    assert(no_factor_from(32));
    lemma_fundamental_div_mod_converse_mod(65521, 31, 2113, 18);
    assert(no_factor_from(31));
    lemma_fundamental_div_mod_converse_mod(65521, 30, 2184, 1);
    assert(no_factor_from(30));
    lemma_fundamental_div_mod_converse_mod(65521, 29, 2259, 10);
    assert(no_factor_from(29));
    lemma_fundamental_div_mod_converse_mod(65521, 28, 2340, 1);
    assert(no_factor_from(28));
    lemma_fundamental_div_mod_converse_mod(65521, 27, 2426, 19);
    assert(no_factor_from(27));
    lemma_fundamental_div_mod_converse_mod(65521, 26, 2520, 1);
    assert(no_factor_from(26));
    lemma_fundamental_div_mod_converse_mod(65521, 25, 2620, 21);
    assert(no_factor_from(25));
    lemma_fundamental_div_mod_converse_mod(65521, 24, 2730, 1);
    assert(no_factor_from(24));
    lemma_fundamental_div_mod_converse_mod(65521, 23, 2848, 17);
    assert(no_factor_from(23));
    lemma_fundamental_div_mod_converse_mod(65521, 22, 2978, 5);
    assert(no_factor_from(22));
    lemma_fundamental_div_mod_converse_mod(65521, 21, 3120, 1);
    assert(no_factor_from(21));
    lemma_fundamental_div_mod_converse_mod(65521, 20, 3276, 1);
    assert(no_factor_from(20));
    lemma_fundamental_div_mod_converse_mod(65521, 19, 3448, 9);
    assert(no_factor_from(19));
    lemma_fundamental_div_mod_converse_mod(65521, 18, 3640, 1);
    assert(no_factor_from(18));
    lemma_fundamental_div_mod_converse_mod(65521, 17, 3854, 3);
    assert(no_factor_from(17));
    lemma_fundamental_div_mod_converse_mod(65521, 16, 4095, 1);
    assert(no_factor_from(16));
    lemma_fundamental_div_mod_converse_mod(65521, 15, 4368, 1);
    assert(no_factor_from(15));
    lemma_fundamental_div_mod_converse_mod(65521, 14, 4680, 1);
    assert(no_factor_from(14));
    lemma_fundamental_div_mod_converse_mod(65521, 13, 5040, 1);
    assert(no_factor_from(13));
    lemma_fundamental_div_mod_converse_mod(65521, 12, 5460, 1);
    assert(no_factor_from(12));
    lemma_fundamental_div_mod_converse_mod(65521, 11, 5956, 5);
    assert(no_factor_from(11));
    lemma_fundamental_div_mod_converse_mod(65521, 10, 6552, 1);
    assert(no_factor_from(10));
    lemma_fundamental_div_mod_converse_mod(65521, 9, 7280, 1);
    assert(no_factor_from(9));
    lemma_fundamental_div_mod_converse_mod(65521, 8, 8190, 1);
    assert(no_factor_from(8));
    lemma_fundamental_div_mod_converse_mod(65521, 7, 9360, 1);
    assert(no_factor_from(7));
    lemma_fundamental_div_mod_converse_mod(65521, 6, 10920, 1);
    assert(no_factor_from(6));
    lemma_fundamental_div_mod_converse_mod(65521, 5, 13104, 1);
    assert(no_factor_from(5));
    lemma_fundamental_div_mod_converse_mod(65521, 4, 16380, 1);
    assert(no_factor_from(4));
    lemma_fundamental_div_mod_converse_mod(65521, 3, 21840, 1);
    assert(no_factor_from(3));
    lemma_fundamental_div_mod_converse_mod(65521, 2, 32760, 1);
    assert(no_factor_from(2));
}

/// If `d` divides `b` and `a % b`, it divides `a`.
proof fn lemma_divides_through_remainder(a: nat, b: nat, d: nat)
    requires
        b > 0,
        d > 0,
        b % d == 0,
        (a % b) % d == 0,
    ensures
        a % d == 0,
{
    let q = (a / b) as int;
    lemma_fundamental_div_mod(a as int, b as int);
    lemma_mul_mod_noop_left(b as int, q, d as int);
    assert(0 * q == 0);
    lemma_small_mod(0, d);
    assert((b * q) % (d as int) == 0);
    lemma_add_mod_noop(b * q, (a % b) as int, d as int);
    assert(a as int == b * q + (a % b) as int);
}

/// The Euclidean remainder divides both starting values.
proof fn lemma_euclid_gcd_divides(old_r: nat, r: nat)
    requires
        old_r > 0,
    ensures
        euclid_gcd(old_r, r) > 0,
        old_r % euclid_gcd(old_r, r) == 0,
        r % euclid_gcd(old_r, r) == 0,
    decreases r,
{
    if r == 0 {
        lemma_mod_self_0(old_r as int);
        lemma_small_mod(0, old_r);
    } else {
        lemma_euclid_gcd_divides(r, old_r % r);
        lemma_divides_through_remainder(old_r, r, euclid_gcd(r, old_r % r));
    }
}

/// `x - q * y` respects congruence modulo `MODULUS`.
proof fn lemma_congruent_sub_multiple(x: int, y: int, x2: int, y2: int, q: int)
    requires
        x % (MODULUS as int) == x2 % (MODULUS as int),
        y % (MODULUS as int) == y2 % (MODULUS as int),
    ensures
        (x - q * y) % (MODULUS as int) == (x2 - q * y2) % (MODULUS as int),
{
    let p = MODULUS as int;
    lemma_mul_mod_noop_right(q, y, p);
    lemma_mul_mod_noop_right(q, y2, p);
    lemma_sub_mod_noop(x, q * y, p);
    lemma_sub_mod_noop(x2, q * y2, p);
}

/// The Bezout invariant: when `old_r` and `r` are congruent to `a` times
/// their coefficients, the last remainder is congruent to `a` times the
/// returned coefficient.
proof fn lemma_euclid_bezout(a: int, old_r: nat, r: nat, old_s: int, s: int)
    requires
        (old_r as int) % (MODULUS as int) == (a * old_s) % (MODULUS as int),
        (r as int) % (MODULUS as int) == (a * s) % (MODULUS as int),
    ensures
        (euclid_gcd(old_r, r) as int) % (MODULUS as int) == (a * euclid_coef(old_r, r, old_s, s))
            % (MODULUS as int),
    decreases r,
{
    if r > 0 {
        let p = MODULUS as int;
        let q = (old_r / r) as int;
        let new_s = (old_s - q * s) % p;
        lemma_fundamental_div_mod(old_r as int, r as int);
        assert((old_r % r) as int == old_r - q * r) by {
            vstd::arithmetic::mul::lemma_mul_is_commutative(r as int, q);
        }
        lemma_congruent_sub_multiple(old_r as int, r as int, a * old_s, a * s, q);
        assert(a * old_s - q * (a * s) == a * (old_s - q * s)) by (nonlinear_arith);
        lemma_mul_mod_noop_right(a, old_s - q * s, p);
        lemma_euclid_bezout(a, r, old_r % r, s, new_s);
    }
}

/// `MODULUS` is prime: no integer strictly between 1 and `MODULUS` divides it.
pub proof fn lemma_modulus_prime(g: int)
    requires
        1 < g < MODULUS,
    ensures
        (MODULUS as int) % g != 0,
{
    lemma_no_small_factor();
    if (MODULUS as int) % g == 0 {
        if g < 257 {
            lemma_no_factor_below(2, g as nat);
        } else {
            let e = (MODULUS as int) / g;
            lemma_fundamental_div_mod(MODULUS as int, g);
            assert(MODULUS as int == g * e);
            assert(1 < e < 257) by (nonlinear_arith)
                requires
                    MODULUS as int == g * e,
                    257 <= g < MODULUS,
                    MODULUS == 65521,
            ;
            lemma_fundamental_div_mod_converse_mod(MODULUS as int, e, g, 0);
            lemma_no_factor_below(2, e as nat);
        }
    }
}

proof fn lemma_no_factor_below(from: nat, d: nat)
    requires
        no_factor_from(from),
        from <= d < 257,
    ensures
        (MODULUS as int) % (d as int) != 0,
    decreases d - from,
{
    if from < d {
        lemma_no_factor_below(from + 1, d);
    }
}

/// Every residue other than 0 times its inverse is 1.
proof fn lemma_inverse_correct(x: Residue)
    requires
        0 < x.v < MODULUS,
    ensures
        residue_of(x.v * inverse_spec(x).v) == (Residue { v: 1 }),
{
    let p = MODULUS as int;
    let a = x.v as nat;
    lemma_small_mod(a, p as nat);
    lemma_euclid_gcd_divides(a, p as nat);
    let g = euclid_gcd(a, p as nat);
    if g > a {
        lemma_small_mod(a, g);
    }
    if g > 1 {
        lemma_modulus_prime(g as int);
    }
    assert(g == 1);
    lemma_mod_self_0(p);
    lemma_small_mod(0, p as nat);
    lemma_euclid_bezout(a as int, a, p as nat, 1, 0);
    let c = euclid_coef(a, p as nat, 1, 0);
    lemma_residue_of_valid(c);
    lemma_mul_mod_noop_right(a as int, c, p);
    lemma_small_mod(1, p as nat);
    lemma_residue_of_valid(a * inverse_spec(x).v);
}

/// The extended Euclidean algorithm on `b` and `MODULUS`, as `inverse_spec` states it.
fn euclid_inverse(b: u64) -> (r: u64)
    requires
        b < MODULUS,
    ensures
        r < MODULUS,
        r as int == euclid_coef(b as nat, MODULUS as nat, 1, 0) % (MODULUS as int),
{
    let ghost p = MODULUS as int;
    let ghost target = euclid_coef(b as nat, MODULUS as nat, 1, 0);
    let mut old_r: u64 = b;
    let mut r: u64 = MODULUS;
    let mut old_s: u64 = 1;
    let mut s: u64 = 0;
    while r != 0
        invariant
            p == MODULUS as int,
            old_s < MODULUS,
            s < MODULUS,
            euclid_coef(old_r as nat, r as nat, old_s as int, s as int) == target,
        decreases r,
    {
        let q = old_r / r;
        let qm = q % MODULUS;
        assert(qm * s <= (MODULUS - 1) * (MODULUS - 1)) by (nonlinear_arith)
            requires
                qm < MODULUS,
                s < MODULUS,
        ;
        let qs = qm * s % MODULUS;
        let new_s = (old_s + MODULUS - qs) % MODULUS;
        proof {
            lemma_mul_mod_noop_left(q as int, s as int, p);
            lemma_sub_mod_noop(old_s as int, q * s, p);
            lemma_small_mod(old_s as nat, p as nat);
            lemma_mod_add_multiples_vanish(old_s - qs, p);
            lemma_mod_bound(q as int, p);
        }
        let rem = old_r % r;
        old_r = r;
        r = rem;
        old_s = s;
        s = new_s;
    }
    proof {
        lemma_small_mod(old_s as nat, p as nat);
    }
    old_s
}

impl Residue {
    /// The residue of a signed integer.
    pub fn from_int(x: i64) -> (r: Residue)
        ensures
            r == residue_of(x as int),
            r.v < MODULUS,
    {
        if x >= 0 {
            proof {
                lemma_residue_of_valid(x as int);
            }
            Residue { v: (x as u64) % MODULUS }
        } else {
            let a: u64 = (-(x as i128)) as u64;
            let r: u64 = a % MODULUS;
            proof {
                let p = MODULUS as int;
                lemma_sub_mod_noop(0, a as int, p);
                lemma_mod_add_multiples_vanish(0 - r, p);
                lemma_small_mod(0, p as nat);
                lemma_residue_of_valid(x as int);
                if r > 0 {
                    lemma_small_mod((p - r) as nat, p as nat);
                } else {
                    lemma_mod_self_0(p);
                }
            }
            Residue { v: (MODULUS - r) % MODULUS }
        }
    }

    /// The residue of an unsigned integer.
    pub fn from_u64(x: u64) -> (r: Residue)
        ensures
            r == residue_of(x as int),
            r.v < MODULUS,
    {
        proof {
            lemma_residue_of_valid(x as int);
        }
        Residue { v: x % MODULUS }
    }

    /// The canonical representative, in `0..MODULUS`.
    pub fn value(&self) -> (r: u64)
        ensures
            r == self.v,
    {
        self.v
    }
}

impl One for Residue {
    open spec fn one_spec() -> Residue {
        Residue { v: 1 }
    }

    fn one() -> (r: Residue) {
        Residue { v: 1 }
    }
}

impl Conj for Residue {
    open spec fn conj_spec(self) -> Residue {
        self
    }

    fn conj(&self) -> (r: Residue) {
        *self
    }
}

impl Field for Residue {
    open spec fn valid(self) -> bool {
        self.v < MODULUS
    }

    open spec fn zero_spec() -> Residue {
        Residue { v: 0 }
    }

    open spec fn add_spec(self, o: Residue) -> Residue {
        residue_of(self.v + o.v)
    }

    open spec fn sub_spec(self, o: Residue) -> Residue {
        residue_of(self.v - o.v)
    }

    open spec fn mul_spec(self, o: Residue) -> Residue {
        residue_of(self.v * o.v)
    }

    open spec fn div_spec(self, o: Residue) -> Residue {
        self.mul_spec(inverse_spec(o))
    }

    open spec fn neg_spec(self) -> Residue {
        residue_of(-self.v)
    }

    fn zero() -> (r: Residue) {
        Residue { v: 0 }
    }

    fn plus(&self, o: &Residue) -> (r: Residue) {
        let a = self.v % MODULUS;
        let b = o.v % MODULUS;
        proof {
            lemma_add_mod_noop(self.v as int, o.v as int, MODULUS as int);
            lemma_residue_of_valid(self.v + o.v);
        }
        Residue { v: (a + b) % MODULUS }
    }

    fn minus(&self, o: &Residue) -> (r: Residue) {
        let a = self.v % MODULUS;
        let b = o.v % MODULUS;
        proof {
            let p = MODULUS as int;
            lemma_sub_mod_noop(self.v as int, o.v as int, p);
            lemma_mod_add_multiples_vanish(a - b, p);
            lemma_residue_of_valid(self.v - o.v);
        }
        Residue { v: (a + MODULUS - b) % MODULUS }
    }

    fn times(&self, o: &Residue) -> (r: Residue) {
        let a = self.v % MODULUS;
        let b = o.v % MODULUS;
        proof {
            lemma_mul_mod_noop(self.v as int, o.v as int, MODULUS as int);
            lemma_residue_of_valid(self.v * o.v);
        }
        assert(a * b <= (MODULUS - 1) * (MODULUS - 1)) by (nonlinear_arith)
            requires
                a < MODULUS,
                b < MODULUS,
        ;
        Residue { v: (a * b) % MODULUS }
    }

    fn divide(&self, o: &Residue) -> (r: Residue) {
        let b = o.v % MODULUS;
        let inv = euclid_inverse(b);
        proof {
            lemma_residue_of_valid(
                euclid_coef(((o.v as int) % (MODULUS as int)) as nat, MODULUS as nat, 1, 0),
            );
        }
        self.times(&Residue { v: inv })
    }

    fn negate(&self) -> (r: Residue) {
        let a = self.v % MODULUS;
        proof {
            let p = MODULUS as int;
            lemma_sub_mod_noop(0, self.v as int, p);
            lemma_mod_add_multiples_vanish(0 - a, p);
            lemma_residue_of_valid(-self.v);
        }
        Residue { v: (MODULUS - a) % MODULUS }
    }

    fn equals(&self, o: &Residue) -> (r: bool) {
        self.v == o.v
    }

    proof fn lemma_results_valid(x: Residue, y: Residue) {
        lemma_residue_of_valid(x.v + y.v);
        lemma_residue_of_valid(x.v - y.v);
        lemma_residue_of_valid(x.v * y.v);
        lemma_residue_of_valid(-x.v);
        lemma_residue_of_valid(x.v * inverse_spec(y).v);
    }

    proof fn lemma_one_ne_zero() {
    }

    proof fn lemma_add_zero(x: Residue) {
        lemma_residue_of_small(x.v as int);
    }

    proof fn lemma_sub_zero(x: Residue) {
        lemma_residue_of_small(x.v as int);
        lemma_residue_of_small(0);
    }

    proof fn lemma_mul_one(x: Residue) {
        lemma_residue_of_small(x.v as int);
        lemma_small_mod(1, MODULUS as nat);
        assert(euclid_coef(1, MODULUS as nat, 1, 0) == 1) by {
            lemma_small_mod(1, MODULUS as nat);
            assert(euclid_coef(1, 0, 1, 0) == 1);
            lemma_small_mod(1, MODULUS as nat);
            assert((0 - 0 * 1) % (MODULUS as int) == 0);
            assert(euclid_coef(MODULUS as nat, 1, 0, 1) == euclid_coef(1, 0, 1, 0)) by {
                lemma_mod_self_0(1);
                assert((MODULUS as int) % 1 == 0) by {
                    lemma_fundamental_div_mod_converse_mod(MODULUS as int, 1, MODULUS as int, 0);
                }
                assert((0 - (MODULUS as int / 1) * 1) % (MODULUS as int) == 0) by {
                    lemma_mod_self_0(MODULUS as int);
                    lemma_mod_multiples_basic(-1, MODULUS as int);
                }
            }
        }
        lemma_residue_of_small(1);
    }

    proof fn lemma_mul_inverse(x: Residue) {
        lemma_inverse_correct(x);
        lemma_small_mod(x.v as nat, MODULUS as nat);
        let inv = inverse_spec(x);
        lemma_residue_of_valid(euclid_coef(x.v as nat, MODULUS as nat, 1, 0));
        lemma_residue_of_small(inv.v as int);
    }

    proof fn lemma_add_inverse(x: Residue) {
        let a = x.v as int;
        lemma_congruent_ops(Residue { v: 0 }, x, 0, a);
        lemma_congruent_ops(x, Residue { v: 0 }.sub_spec(x), a, 0 - a);
        lemma_small_mod(0, MODULUS as nat);
        lemma_congruent_equal(x.add_spec(Residue { v: 0 }.sub_spec(x)), Residue { v: 0 }, 0);
    }

    proof fn lemma_mul_zero(x: Residue) {
        lemma_residue_of_small(0);
        lemma_mul_basics(x.v as int);
    }

    proof fn lemma_mul_commutative(x: Residue, y: Residue) {
        lemma_mul_is_commutative(x.v as int, y.v as int);
    }

    proof fn lemma_add_associative(x: Residue, y: Residue, z: Residue) {
        let (a, b, c) = (x.v as int, y.v as int, z.v as int);
        lemma_congruent_ops(x, y, a, b);
        lemma_congruent_ops(x.add_spec(y), z, a + b, c);
        lemma_congruent_ops(y, z, b, c);
        lemma_congruent_ops(x, y.add_spec(z), a, b + c);
        lemma_congruent_equal(x.add_spec(y).add_spec(z), x.add_spec(y.add_spec(z)), a + b + c);
    }

    proof fn lemma_add_commutative(x: Residue, y: Residue) {
    }

    proof fn lemma_mul_associative(x: Residue, y: Residue, z: Residue) {
        let (a, b, c) = (x.v as int, y.v as int, z.v as int);
        lemma_congruent_ops(x, y, a, b);
        lemma_congruent_ops(x.mul_spec(y), z, a * b, c);
        lemma_congruent_ops(y, z, b, c);
        lemma_congruent_ops(x, y.mul_spec(z), a, b * c);
        lemma_mul_is_associative(a, b, c);
        lemma_congruent_equal(x.mul_spec(y).mul_spec(z), x.mul_spec(y.mul_spec(z)), a * b * c);
    }

    proof fn lemma_distributive(x: Residue, y: Residue, z: Residue) {
        let (a, b, c) = (x.v as int, y.v as int, z.v as int);
        lemma_congruent_ops(y, z, b, c);
        lemma_congruent_ops(x, y.add_spec(z), a, b + c);
        lemma_congruent_ops(x, y, a, b);
        lemma_congruent_ops(x, z, a, c);
        lemma_congruent_ops(x.mul_spec(y), x.mul_spec(z), a * b, a * c);
        lemma_mul_is_distributive_add(a, b, c);
        lemma_congruent_equal(
            x.mul_spec(y.add_spec(z)),
            x.mul_spec(y).add_spec(x.mul_spec(z)),
            a * (b + c),
        );
    }

    proof fn lemma_conj_laws(x: Residue, y: Residue) {
    }
}

} // verus!
