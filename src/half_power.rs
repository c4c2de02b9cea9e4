use vstd::prelude::*;
use vstd::arithmetic::power2::{lemma2_to64, lemma2_to64_rest, pow2};

use crate::decay::SCALE;

verus! {

/// `x` to the sixty-fourth power, by six squarings.
pub open spec fn pow64(x: int) -> int {
    let x2 = x * x;
    let x4 = x2 * x2;
    let x8 = x4 * x4;
    let x16 = x8 * x8;
    let x32 = x16 * x16;
    x32 * x32
}

/// `SCALE * 2^(-k/64)` rounded down, for `k` from 0 to 64: the points of
/// exponential decay at each sixty-fourth of a half-life.
pub open spec fn half_power(k: nat) -> nat {
    if k == 0 {
        1000000
    } else if k == 1 {
        989228
    } else if k == 2 {
        978572
    } else if k == 3 {
        968030
    } else if k == 4 {
        957603
    } else if k == 5 {
        947287
    } else if k == 6 {
        937083
    } else if k == 7 {
        926989
    } else if k == 8 {
        917004
    } else if k == 9 {
        907126
    } else if k == 10 {
        897354
    } else if k == 11 {
        887688
    } else if k == 12 {
        878126
    } else if k == 13 {
        868666
    } else if k == 14 {
        859309
    } else if k == 15 {
        850053
    } else if k == 16 {
        840896
    } else if k == 17 {
        831838
    } else if k == 18 {
        822877
    } else if k == 19 {
        814013
    } else if k == 20 {
        805245
    } else if k == 21 {
        796571
    } else if k == 22 {
        787990
    } else if k == 23 {
        779502
    } else if k == 24 {
        771105
    } else if k == 25 {
        762799
    } else if k == 26 {
        754582
    } else if k == 27 {
        746453
    } else if k == 28 {
        738413
    } else if k == 29 {
        730458
    } else if k == 30 {
        722590
    } else if k == 31 {
        714806
    } else if k == 32 {
        707106
    } else if k == 33 {
        699489
    } else if k == 34 {
        691954
    } else if k == 35 {
        684501
    } else if k == 36 {
        677127
    } else if k == 37 {
        669833
    } else if k == 38 {
        662618
    } else if k == 39 {
        655480
    } else if k == 40 {
        648419
    } else if k == 41 {
        641435
    } else if k == 42 {
        634525
    } else if k == 43 {
        627690
    } else if k == 44 {
        620928
    } else if k == 45 {
        614240
    } else if k == 46 {
        607623
    } else if k == 47 {
        601078
    } else if k == 48 {
        594603
    } else if k == 49 {
        588198
    } else if k == 50 {
        581862
    } else if k == 51 {
        575594
    } else if k == 52 {
        569394
    } else if k == 53 {
        563260
    } else if k == 54 {
        557193
    } else if k == 55 {
        551191
    } else if k == 56 {
        545253
    } else if k == 57 {
        539380
    } else if k == 58 {
        533570
    } else if k == 59 {
        527822
    } else if k == 60 {
        522136
    } else if k == 61 {
        516512
    } else if k == 62 {
        510948
    } else if k == 63 {
        505444
    } else {
        500000
    }
}

/// `SCALE * 2^(-k/64)` rounded down, for `k` from 0 to 64.
pub fn half_power_at(k: u64) -> (r: u64)
    requires
        k <= 64,
    ensures
        r == half_power(k as nat),
        r <= SCALE,
        k < 64 ==> half_power((k + 1) as nat) <= r,
{
    if k == 0 {
        1000000
    } else if k == 1 {
        989228
    } else if k == 2 {
        978572
    } else if k == 3 {
        968030
    } else if k == 4 {
        957603
    } else if k == 5 {
        947287
    } else if k == 6 {
        937083
    } else if k == 7 {
        926989
    } else if k == 8 {
        917004
    } else if k == 9 {
        907126
    } else if k == 10 {
        897354
    } else if k == 11 {
        887688
    } else if k == 12 {
        878126
    } else if k == 13 {
        868666
    } else if k == 14 {
        859309
    } else if k == 15 {
        850053
    } else if k == 16 {
        840896
    } else if k == 17 {
        831838
    } else if k == 18 {
        822877
    } else if k == 19 {
        814013
    } else if k == 20 {
        805245
    } else if k == 21 {
        796571
    } else if k == 22 {
        787990
    } else if k == 23 {
        779502
    } else if k == 24 {
        771105
    } else if k == 25 {
        762799
    } else if k == 26 {
        754582
    } else if k == 27 {
        746453
    } else if k == 28 {
        738413
    } else if k == 29 {
        730458
    } else if k == 30 {
        722590
    } else if k == 31 {
        714806
    } else if k == 32 {
        707106
    } else if k == 33 {
        699489
    } else if k == 34 {
        691954
    } else if k == 35 {
        684501
    } else if k == 36 {
        677127
    } else if k == 37 {
        669833
    } else if k == 38 {
        662618
    } else if k == 39 {
        655480
    } else if k == 40 {
        648419
    } else if k == 41 {
        641435
    } else if k == 42 {
        634525
    } else if k == 43 {
        627690
    } else if k == 44 {
        620928
    } else if k == 45 {
        614240
    } else if k == 46 {
        607623
    } else if k == 47 {
        601078
    } else if k == 48 {
        594603
    } else if k == 49 {
        588198
    } else if k == 50 {
        581862
    } else if k == 51 {
        575594
    } else if k == 52 {
        569394
    } else if k == 53 {
        563260
    } else if k == 54 {
        557193
    } else if k == 55 {
        551191
    } else if k == 56 {
        545253
    } else if k == 57 {
        539380
    } else if k == 58 {
        533570
    } else if k == 59 {
        527822
    } else if k == 60 {
        522136
    } else if k == 61 {
        516512
    } else if k == 62 {
        510948
    } else if k == 63 {
        505444
    } else {
        500000
    }
}

/// The points fall from one to one half.
pub proof fn half_power_bounds(k: nat)
    requires
        k < 64,
    ensures
        SCALE / 2 <= half_power(k + 1) <= half_power(k) <= SCALE,
{
}

/// Each entry is the largest whole number `c` with
/// `c^64 * 2^k <= SCALE^64`, that is `SCALE * 2^(-k/64)` rounded down.
#[verifier::rlimit(100)]
pub proof fn half_power_exact(k: nat)
    requires
        k < 64,
    ensures
        pow64(half_power(k) as int) * pow2(k) <= pow64(SCALE as int) < pow64(half_power(k) + 1int)
            * pow2(k),
{
    if k == 0 {
        assert(pow64(1000000) < pow64(1000001)) by (nonlinear_arith);
        assert(half_power(k) == 1000000);
        lemma2_to64();
        assert(pow2(k) == 1);
    } else if k == 1 {
        assert(pow64(989228) * 2 <= pow64(1000000) < pow64(989229) * 2) by (nonlinear_arith);
        assert(pow64(half_power(k) as int) * pow2(k) <= pow64(SCALE as int) < pow64(half_power(k) + 1int) * pow2(k)) by {
            lemma2_to64();
        }
    } else if k == 2 {
        assert(pow64(978572) * 4 <= pow64(1000000) < pow64(978573) * 4) by (nonlinear_arith);
        assert(pow64(half_power(k) as int) * pow2(k) <= pow64(SCALE as int) < pow64(half_power(k) + 1int) * pow2(k)) by {
            lemma2_to64();
        }
    } else if k == 3 {
        assert(pow64(968030) * 8 <= pow64(1000000) < pow64(968031) * 8) by (nonlinear_arith);
        assert(pow64(half_power(k) as int) * pow2(k) <= pow64(SCALE as int) < pow64(half_power(k) + 1int) * pow2(k)) by {
            lemma2_to64();
        }
    } else if k == 4 {
        assert(pow64(957603) * 16 <= pow64(1000000) < pow64(957604) * 16) by (nonlinear_arith);
        assert(pow64(half_power(k) as int) * pow2(k) <= pow64(SCALE as int) < pow64(half_power(k) + 1int) * pow2(k)) by {
            lemma2_to64();
        }
    } else if k == 5 {
        assert(pow64(947287) * 32 <= pow64(1000000) < pow64(947288) * 32) by (nonlinear_arith);
        assert(pow64(half_power(k) as int) * pow2(k) <= pow64(SCALE as int) < pow64(half_power(k) + 1int) * pow2(k)) by {
            lemma2_to64();
        }
    } else if k == 6 {
        assert(pow64(937083) * 64 <= pow64(1000000) < pow64(937084) * 64) by (nonlinear_arith);
        assert(pow64(half_power(k) as int) * pow2(k) <= pow64(SCALE as int) < pow64(half_power(k) + 1int) * pow2(k)) by {
            lemma2_to64();
        }
    } else if k == 7 {
        assert(pow64(926989) * 128 <= pow64(1000000) < pow64(926990) * 128) by (nonlinear_arith);
        assert(pow64(half_power(k) as int) * pow2(k) <= pow64(SCALE as int) < pow64(half_power(k) + 1int) * pow2(k)) by {
            lemma2_to64();
        }
    } else if k == 8 {
        assert(pow64(917004) * 256 <= pow64(1000000) < pow64(917005) * 256) by (nonlinear_arith);
        assert(pow64(half_power(k) as int) * pow2(k) <= pow64(SCALE as int) < pow64(half_power(k) + 1int) * pow2(k)) by {
            lemma2_to64();
        }
    } else if k == 9 {
        assert(pow64(907126) * 512 <= pow64(1000000) < pow64(907127) * 512) by (nonlinear_arith);
        assert(pow64(half_power(k) as int) * pow2(k) <= pow64(SCALE as int) < pow64(half_power(k) + 1int) * pow2(k)) by {
            lemma2_to64();
        }
    } else if k == 10 {
        assert(pow64(897354) * 1024 <= pow64(1000000) < pow64(897355) * 1024) by (nonlinear_arith);
        assert(pow64(half_power(k) as int) * pow2(k) <= pow64(SCALE as int) < pow64(half_power(k) + 1int) * pow2(k)) by {
            lemma2_to64();
        }
    } else if k == 11 {
        assert(pow64(887688) * 2048 <= pow64(1000000) < pow64(887689) * 2048) by (nonlinear_arith);
        assert(pow64(half_power(k) as int) * pow2(k) <= pow64(SCALE as int) < pow64(half_power(k) + 1int) * pow2(k)) by {
            lemma2_to64();
        }
    } else if k == 12 {
        assert(pow64(878126) * 4096 <= pow64(1000000) < pow64(878127) * 4096) by (nonlinear_arith);
        assert(pow64(half_power(k) as int) * pow2(k) <= pow64(SCALE as int) < pow64(half_power(k) + 1int) * pow2(k)) by {
            lemma2_to64();
        }
    } else if k == 13 {
        assert(pow64(868666) * 8192 <= pow64(1000000) < pow64(868667) * 8192) by (nonlinear_arith);
        assert(pow64(half_power(k) as int) * pow2(k) <= pow64(SCALE as int) < pow64(half_power(k) + 1int) * pow2(k)) by {
            lemma2_to64();
        }
    } else if k == 14 {
        assert(pow64(859309) * 16384 <= pow64(1000000) < pow64(859310) * 16384) by (nonlinear_arith);
        assert(pow64(half_power(k) as int) * pow2(k) <= pow64(SCALE as int) < pow64(half_power(k) + 1int) * pow2(k)) by {
            lemma2_to64();
        }
    } else if k == 15 {
        assert(pow64(850053) * 32768 <= pow64(1000000) < pow64(850054) * 32768) by (nonlinear_arith);
        assert(pow64(half_power(k) as int) * pow2(k) <= pow64(SCALE as int) < pow64(half_power(k) + 1int) * pow2(k)) by {
            lemma2_to64();
        }
    } else if k == 16 {
        assert(pow64(840896) * 65536 <= pow64(1000000) < pow64(840897) * 65536) by (nonlinear_arith);
        assert(pow64(half_power(k) as int) * pow2(k) <= pow64(SCALE as int) < pow64(half_power(k) + 1int) * pow2(k)) by {
            lemma2_to64();
        }
    } else if k == 17 {
        assert(pow64(831838) * 131072 <= pow64(1000000) < pow64(831839) * 131072) by (nonlinear_arith);
        assert(pow64(half_power(k) as int) * pow2(k) <= pow64(SCALE as int) < pow64(half_power(k) + 1int) * pow2(k)) by {
            lemma2_to64();
        }
    } else if k == 18 {
        assert(pow64(822877) * 262144 <= pow64(1000000) < pow64(822878) * 262144) by (nonlinear_arith);
        assert(pow64(half_power(k) as int) * pow2(k) <= pow64(SCALE as int) < pow64(half_power(k) + 1int) * pow2(k)) by {
            lemma2_to64();
        }
    } else if k == 19 {
        assert(pow64(814013) * 524288 <= pow64(1000000) < pow64(814014) * 524288) by (nonlinear_arith);
        assert(pow64(half_power(k) as int) * pow2(k) <= pow64(SCALE as int) < pow64(half_power(k) + 1int) * pow2(k)) by {
            lemma2_to64();
        }
    } else if k == 20 {
        assert(pow64(805245) * 1048576 <= pow64(1000000) < pow64(805246) * 1048576) by (nonlinear_arith);
        assert(pow64(half_power(k) as int) * pow2(k) <= pow64(SCALE as int) < pow64(half_power(k) + 1int) * pow2(k)) by {
            lemma2_to64();
        }
    } else if k == 21 {
        assert(pow64(796571) * 2097152 <= pow64(1000000) < pow64(796572) * 2097152) by (nonlinear_arith);
        assert(pow64(half_power(k) as int) * pow2(k) <= pow64(SCALE as int) < pow64(half_power(k) + 1int) * pow2(k)) by {
            lemma2_to64();
        }
    } else if k == 22 {
        assert(pow64(787990) * 4194304 <= pow64(1000000) < pow64(787991) * 4194304) by (nonlinear_arith);
        assert(pow64(half_power(k) as int) * pow2(k) <= pow64(SCALE as int) < pow64(half_power(k) + 1int) * pow2(k)) by {
            lemma2_to64();
        }
    } else if k == 23 {
        assert(pow64(779502) * 8388608 <= pow64(1000000) < pow64(779503) * 8388608) by (nonlinear_arith);
        assert(pow64(half_power(k) as int) * pow2(k) <= pow64(SCALE as int) < pow64(half_power(k) + 1int) * pow2(k)) by {
            lemma2_to64();
        }
    } else if k == 24 {
        assert(pow64(771105) * 16777216 <= pow64(1000000) < pow64(771106) * 16777216) by (nonlinear_arith);
        assert(pow64(half_power(k) as int) * pow2(k) <= pow64(SCALE as int) < pow64(half_power(k) + 1int) * pow2(k)) by {
            lemma2_to64();
        }
    } else if k == 25 {
        assert(pow64(762799) * 33554432 <= pow64(1000000) < pow64(762800) * 33554432) by (nonlinear_arith);
        assert(pow64(half_power(k) as int) * pow2(k) <= pow64(SCALE as int) < pow64(half_power(k) + 1int) * pow2(k)) by {
            lemma2_to64();
        }
    } else if k == 26 {
        assert(pow64(754582) * 67108864 <= pow64(1000000) < pow64(754583) * 67108864) by (nonlinear_arith);
        assert(pow64(half_power(k) as int) * pow2(k) <= pow64(SCALE as int) < pow64(half_power(k) + 1int) * pow2(k)) by {
            lemma2_to64();
        }
    } else if k == 27 {
        assert(pow64(746453) * 134217728 <= pow64(1000000) < pow64(746454) * 134217728) by (nonlinear_arith);
        assert(pow64(half_power(k) as int) * pow2(k) <= pow64(SCALE as int) < pow64(half_power(k) + 1int) * pow2(k)) by {
            lemma2_to64();
        }
    } else if k == 28 {
        assert(pow64(738413) * 268435456 <= pow64(1000000) < pow64(738414) * 268435456) by (nonlinear_arith);
        assert(pow64(half_power(k) as int) * pow2(k) <= pow64(SCALE as int) < pow64(half_power(k) + 1int) * pow2(k)) by {
            lemma2_to64();
        }
    } else if k == 29 {
        assert(pow64(730458) * 536870912 <= pow64(1000000) < pow64(730459) * 536870912) by (nonlinear_arith);
        assert(pow64(half_power(k) as int) * pow2(k) <= pow64(SCALE as int) < pow64(half_power(k) + 1int) * pow2(k)) by {
            lemma2_to64();
        }
    } else if k == 30 {
        assert(pow64(722590) * 1073741824 <= pow64(1000000) < pow64(722591) * 1073741824) by (nonlinear_arith);
        assert(pow64(half_power(k) as int) * pow2(k) <= pow64(SCALE as int) < pow64(half_power(k) + 1int) * pow2(k)) by {
            lemma2_to64();
        }
    } else if k == 31 {
        assert(pow64(714806) * 2147483648 <= pow64(1000000) < pow64(714807) * 2147483648) by (nonlinear_arith);
        assert(pow64(half_power(k) as int) * pow2(k) <= pow64(SCALE as int) < pow64(half_power(k) + 1int) * pow2(k)) by {
            lemma2_to64();
        }
    } else if k == 32 {
        assert(pow64(707106) * 4294967296 <= pow64(1000000) < pow64(707107) * 4294967296) by (nonlinear_arith);
        assert(pow64(half_power(k) as int) * pow2(k) <= pow64(SCALE as int) < pow64(half_power(k) + 1int) * pow2(k)) by {
            lemma2_to64();
        }
    } else if k == 33 {
        assert(pow64(699489) * 8589934592 <= pow64(1000000) < pow64(699490) * 8589934592) by (nonlinear_arith);
        assert(pow64(half_power(k) as int) * pow2(k) <= pow64(SCALE as int) < pow64(half_power(k) + 1int) * pow2(k)) by {
            lemma2_to64_rest();
        }
    } else if k == 34 {
        assert(pow64(691954) * 17179869184 <= pow64(1000000) < pow64(691955) * 17179869184) by (nonlinear_arith);
        assert(pow64(half_power(k) as int) * pow2(k) <= pow64(SCALE as int) < pow64(half_power(k) + 1int) * pow2(k)) by {
            lemma2_to64_rest();
        }
    } else if k == 35 {
        assert(pow64(684501) * 34359738368 <= pow64(1000000) < pow64(684502) * 34359738368) by (nonlinear_arith);
        assert(pow64(half_power(k) as int) * pow2(k) <= pow64(SCALE as int) < pow64(half_power(k) + 1int) * pow2(k)) by {
            lemma2_to64_rest();
        }
    } else if k == 36 {
        assert(pow64(677127) * 68719476736 <= pow64(1000000) < pow64(677128) * 68719476736) by (nonlinear_arith);
        assert(pow64(half_power(k) as int) * pow2(k) <= pow64(SCALE as int) < pow64(half_power(k) + 1int) * pow2(k)) by {
            lemma2_to64_rest();
        }
    } else if k == 37 {
        assert(pow64(669833) * 137438953472 <= pow64(1000000) < pow64(669834) * 137438953472) by (nonlinear_arith);
        assert(pow64(half_power(k) as int) * pow2(k) <= pow64(SCALE as int) < pow64(half_power(k) + 1int) * pow2(k)) by {
            lemma2_to64_rest();
        }
    } else if k == 38 {
        assert(pow64(662618) * 274877906944 <= pow64(1000000) < pow64(662619) * 274877906944) by (nonlinear_arith);
        assert(pow64(half_power(k) as int) * pow2(k) <= pow64(SCALE as int) < pow64(half_power(k) + 1int) * pow2(k)) by {
            lemma2_to64_rest();
        }
    } else if k == 39 {
        assert(pow64(655480) * 549755813888 <= pow64(1000000) < pow64(655481) * 549755813888) by (nonlinear_arith);
        assert(pow64(half_power(k) as int) * pow2(k) <= pow64(SCALE as int) < pow64(half_power(k) + 1int) * pow2(k)) by {
            lemma2_to64_rest();
        }
    } else if k == 40 {
        assert(pow64(648419) * 1099511627776 <= pow64(1000000) < pow64(648420) * 1099511627776) by (nonlinear_arith);
        assert(pow64(half_power(k) as int) * pow2(k) <= pow64(SCALE as int) < pow64(half_power(k) + 1int) * pow2(k)) by {
            lemma2_to64_rest();
        }
    } else if k == 41 {
        assert(pow64(641435) * 2199023255552 <= pow64(1000000) < pow64(641436) * 2199023255552) by (nonlinear_arith);
        assert(pow64(half_power(k) as int) * pow2(k) <= pow64(SCALE as int) < pow64(half_power(k) + 1int) * pow2(k)) by {
            lemma2_to64_rest();
        }
    } else if k == 42 {
        assert(pow64(634525) * 4398046511104 <= pow64(1000000) < pow64(634526) * 4398046511104) by (nonlinear_arith);
        assert(pow64(half_power(k) as int) * pow2(k) <= pow64(SCALE as int) < pow64(half_power(k) + 1int) * pow2(k)) by {
            lemma2_to64_rest();
        }
    } else if k == 43 {
        assert(pow64(627690) * 8796093022208 <= pow64(1000000) < pow64(627691) * 8796093022208) by (nonlinear_arith);
        assert(pow64(half_power(k) as int) * pow2(k) <= pow64(SCALE as int) < pow64(half_power(k) + 1int) * pow2(k)) by {
            lemma2_to64_rest();
        }
    } else if k == 44 {
        assert(pow64(620928) * 17592186044416 <= pow64(1000000) < pow64(620929) * 17592186044416) by (nonlinear_arith);
        assert(pow64(half_power(k) as int) * pow2(k) <= pow64(SCALE as int) < pow64(half_power(k) + 1int) * pow2(k)) by {
            lemma2_to64_rest();
        }
    } else if k == 45 {
        assert(pow64(614240) * 35184372088832 <= pow64(1000000) < pow64(614241) * 35184372088832) by (nonlinear_arith);
        assert(pow64(half_power(k) as int) * pow2(k) <= pow64(SCALE as int) < pow64(half_power(k) + 1int) * pow2(k)) by {
            lemma2_to64_rest();
        }
    } else if k == 46 {
        assert(pow64(607623) * 70368744177664 <= pow64(1000000) < pow64(607624) * 70368744177664) by (nonlinear_arith);
        assert(pow64(half_power(k) as int) * pow2(k) <= pow64(SCALE as int) < pow64(half_power(k) + 1int) * pow2(k)) by {
            lemma2_to64_rest();
        }
    } else if k == 47 {
        assert(pow64(601078) * 140737488355328 <= pow64(1000000) < pow64(601079) * 140737488355328) by (nonlinear_arith);
        assert(pow64(half_power(k) as int) * pow2(k) <= pow64(SCALE as int) < pow64(half_power(k) + 1int) * pow2(k)) by {
            lemma2_to64_rest();
        }
    } else if k == 48 {
        assert(pow64(594603) * 281474976710656 <= pow64(1000000) < pow64(594604) * 281474976710656) by (nonlinear_arith);
        assert(pow64(half_power(k) as int) * pow2(k) <= pow64(SCALE as int) < pow64(half_power(k) + 1int) * pow2(k)) by {
            lemma2_to64_rest();
        }
    } else if k == 49 {
        assert(pow64(588198) * 562949953421312 <= pow64(1000000) < pow64(588199) * 562949953421312) by (nonlinear_arith);
        assert(pow64(half_power(k) as int) * pow2(k) <= pow64(SCALE as int) < pow64(half_power(k) + 1int) * pow2(k)) by {
            lemma2_to64_rest();
        }
    } else if k == 50 {
        assert(pow64(581862) * 1125899906842624 <= pow64(1000000) < pow64(581863) * 1125899906842624) by (nonlinear_arith);
        assert(pow64(half_power(k) as int) * pow2(k) <= pow64(SCALE as int) < pow64(half_power(k) + 1int) * pow2(k)) by {
            lemma2_to64_rest();
        }
    } else if k == 51 {
        assert(pow64(575594) * 2251799813685248 <= pow64(1000000) < pow64(575595) * 2251799813685248) by (nonlinear_arith);
        assert(pow64(half_power(k) as int) * pow2(k) <= pow64(SCALE as int) < pow64(half_power(k) + 1int) * pow2(k)) by {
            lemma2_to64_rest();
        }
    } else if k == 52 {
        assert(pow64(569394) * 4503599627370496 <= pow64(1000000) < pow64(569395) * 4503599627370496) by (nonlinear_arith);
        assert(pow64(half_power(k) as int) * pow2(k) <= pow64(SCALE as int) < pow64(half_power(k) + 1int) * pow2(k)) by {
            lemma2_to64_rest();
        }
    } else if k == 53 {
        assert(pow64(563260) * 9007199254740992 <= pow64(1000000) < pow64(563261) * 9007199254740992) by (nonlinear_arith);
        assert(pow64(half_power(k) as int) * pow2(k) <= pow64(SCALE as int) < pow64(half_power(k) + 1int) * pow2(k)) by {
            lemma2_to64_rest();
        }
    } else if k == 54 {
        assert(pow64(557193) * 18014398509481984 <= pow64(1000000) < pow64(557194) * 18014398509481984) by (nonlinear_arith);
        assert(pow64(half_power(k) as int) * pow2(k) <= pow64(SCALE as int) < pow64(half_power(k) + 1int) * pow2(k)) by {
            lemma2_to64_rest();
        }
    } else if k == 55 {
        assert(pow64(551191) * 36028797018963968 <= pow64(1000000) < pow64(551192) * 36028797018963968) by (nonlinear_arith);
        assert(pow64(half_power(k) as int) * pow2(k) <= pow64(SCALE as int) < pow64(half_power(k) + 1int) * pow2(k)) by {
            lemma2_to64_rest();
        }
    } else if k == 56 {
        assert(pow64(545253) * 72057594037927936 <= pow64(1000000) < pow64(545254) * 72057594037927936) by (nonlinear_arith);
        assert(pow64(half_power(k) as int) * pow2(k) <= pow64(SCALE as int) < pow64(half_power(k) + 1int) * pow2(k)) by {
            lemma2_to64_rest();
        }
    } else if k == 57 {
        assert(pow64(539380) * 144115188075855872 <= pow64(1000000) < pow64(539381) * 144115188075855872) by (nonlinear_arith);
        assert(pow64(half_power(k) as int) * pow2(k) <= pow64(SCALE as int) < pow64(half_power(k) + 1int) * pow2(k)) by {
            lemma2_to64_rest();
        }
    } else if k == 58 {
        assert(pow64(533570) * 288230376151711744 <= pow64(1000000) < pow64(533571) * 288230376151711744) by (nonlinear_arith);
        assert(pow64(half_power(k) as int) * pow2(k) <= pow64(SCALE as int) < pow64(half_power(k) + 1int) * pow2(k)) by {
            lemma2_to64_rest();
        }
    } else if k == 59 {
        assert(pow64(527822) * 576460752303423488 <= pow64(1000000) < pow64(527823) * 576460752303423488) by (nonlinear_arith);
        assert(pow64(half_power(k) as int) * pow2(k) <= pow64(SCALE as int) < pow64(half_power(k) + 1int) * pow2(k)) by {
            lemma2_to64_rest();
        }
    } else if k == 60 {
        assert(pow64(522136) * 1152921504606846976 <= pow64(1000000) < pow64(522137) * 1152921504606846976) by (nonlinear_arith);
        assert(pow64(half_power(k) as int) * pow2(k) <= pow64(SCALE as int) < pow64(half_power(k) + 1int) * pow2(k)) by {
            lemma2_to64_rest();
        }
    } else if k == 61 {
        assert(pow64(516512) * 2305843009213693952 <= pow64(1000000) < pow64(516513) * 2305843009213693952) by (nonlinear_arith);
        assert(pow64(half_power(k) as int) * pow2(k) <= pow64(SCALE as int) < pow64(half_power(k) + 1int) * pow2(k)) by {
            lemma2_to64_rest();
        }
    } else if k == 62 {
        assert(pow64(510948) * 4611686018427387904 <= pow64(1000000) < pow64(510949) * 4611686018427387904) by (nonlinear_arith);
        assert(pow64(half_power(k) as int) * pow2(k) <= pow64(SCALE as int) < pow64(half_power(k) + 1int) * pow2(k)) by {
            lemma2_to64_rest();
        }
    } else if k == 63 {
        assert(pow64(505444) * 9223372036854775808 <= pow64(1000000) < pow64(505445) * 9223372036854775808) by (nonlinear_arith);
        assert(pow64(half_power(k) as int) * pow2(k) <= pow64(SCALE as int) < pow64(half_power(k) + 1int) * pow2(k)) by {
            lemma2_to64_rest();
        }
    }
}

} // verus!
