use vstd::prelude::*;
use crate::version::spec_alignment_centers;

verus! {

/// The spacing of the alignment pattern centres after the first (ISO 18004
/// Annex E): an even step, so that the centres after the first, counted back
/// from the last, are evenly spaced.
pub open spec fn alignment_step(version: int) -> int {
    let n = version / 7 + 2;
    if version == 32 {
        26
    } else {
        ((4 * version + 2 * n + 1) / (2 * n - 2)) * 2
    }
}

/// The alignment pattern centres that the rule of ISO 18004 Annex E gives a
/// version from 2 on: `version / 7 + 2` of them, the first at 6, the last at
/// `dimension - 7`, the ones between stepping back from the last by the step.
pub open spec fn rule_centers(version: int) -> Seq<u32> {
    let n = version / 7 + 2;
    Seq::new(
        n as nat,
        |k: int|
            if k == 0 {
                6u32
            } else {
                (4 * version + 17 - 7 - (n - 1 - k) * alignment_step(version)) as u32
            },
    )
}

/// The alignment pattern centres of every version from 2 on are those of the
/// rule of ISO 18004 Annex E: the first at 6, the last at `dimension - 7`,
/// and the ones between evenly spaced by an even step; version 1 has none.
/// So version 2 has centres 6 and 18.
pub proof fn lemma_alignment_centers_rule(version: u32)
    requires
        1 <= version <= 40,
    ensures
        version == 1 ==> spec_alignment_centers(version).len() == 0,
        version >= 2 ==> spec_alignment_centers(version) == rule_centers(version as int),
        version >= 2 ==> alignment_step(version as int) % 2 == 0,
        version >= 2 ==> spec_alignment_centers(version)[spec_alignment_centers(version).len() - 1] == 4 * version
            + 17 - 7,
{
    if version == 1 {
    } else if version == 2 {
        assert((13int) / (2int) == 6) by (nonlinear_arith);
        assert(alignment_step(2) == 12);
        assert(rule_centers(2).len() == 2);
        assert(rule_centers(2)[0] == 6u32);
        assert(rule_centers(2)[1] == 18u32);
        assert(spec_alignment_centers(2) =~= rule_centers(2));
    } else if version == 3 {
        assert((17int) / (2int) == 8) by (nonlinear_arith);
        assert(alignment_step(3) == 16);
        assert(rule_centers(3).len() == 2);
        assert(rule_centers(3)[0] == 6u32);
        assert(rule_centers(3)[1] == 22u32);
        assert(spec_alignment_centers(3) =~= rule_centers(3));
    } else if version == 4 {
        assert((21int) / (2int) == 10) by (nonlinear_arith);
        assert(alignment_step(4) == 20);
        assert(rule_centers(4).len() == 2);
        assert(rule_centers(4)[0] == 6u32);
        assert(rule_centers(4)[1] == 26u32);
        assert(spec_alignment_centers(4) =~= rule_centers(4));
    } else if version == 5 {
        assert((25int) / (2int) == 12) by (nonlinear_arith);
        assert(alignment_step(5) == 24);
        assert(rule_centers(5).len() == 2);
        assert(rule_centers(5)[0] == 6u32);
        assert(rule_centers(5)[1] == 30u32);
        assert(spec_alignment_centers(5) =~= rule_centers(5));
    } else if version == 6 {
        assert((29int) / (2int) == 14) by (nonlinear_arith);
        assert(alignment_step(6) == 28);
        assert(rule_centers(6).len() == 2);
        assert(rule_centers(6)[0] == 6u32);
        assert(rule_centers(6)[1] == 34u32);
        assert(spec_alignment_centers(6) =~= rule_centers(6));
    } else if version == 7 {
        assert((35int) / (4int) == 8) by (nonlinear_arith);
        assert(alignment_step(7) == 16);
        assert(rule_centers(7).len() == 3);
        assert(rule_centers(7)[0] == 6u32);
        assert(rule_centers(7)[1] == 22u32);
        assert(rule_centers(7)[2] == 38u32);
        assert(spec_alignment_centers(7) =~= rule_centers(7));
    } else if version == 8 {
        assert((39int) / (4int) == 9) by (nonlinear_arith);
        assert(alignment_step(8) == 18);
        assert(rule_centers(8).len() == 3);
        assert(rule_centers(8)[0] == 6u32);
        assert(rule_centers(8)[1] == 24u32);
        assert(rule_centers(8)[2] == 42u32);
        assert(spec_alignment_centers(8) =~= rule_centers(8));
    } else if version == 9 {
        assert((43int) / (4int) == 10) by (nonlinear_arith);
        assert(alignment_step(9) == 20);
        assert(rule_centers(9).len() == 3);
        assert(rule_centers(9)[0] == 6u32);
        assert(rule_centers(9)[1] == 26u32);
        assert(rule_centers(9)[2] == 46u32);
        assert(spec_alignment_centers(9) =~= rule_centers(9));
    } else if version == 10 {
        assert((47int) / (4int) == 11) by (nonlinear_arith);
        assert(alignment_step(10) == 22);
        assert(rule_centers(10).len() == 3);
        assert(rule_centers(10)[0] == 6u32);
        assert(rule_centers(10)[1] == 28u32);
        assert(rule_centers(10)[2] == 50u32);
        assert(spec_alignment_centers(10) =~= rule_centers(10));
    } else if version == 11 {
        assert((51int) / (4int) == 12) by (nonlinear_arith);
        assert(alignment_step(11) == 24);
        assert(rule_centers(11).len() == 3);
        assert(rule_centers(11)[0] == 6u32);
        assert(rule_centers(11)[1] == 30u32);
        assert(rule_centers(11)[2] == 54u32);
        assert(spec_alignment_centers(11) =~= rule_centers(11));
    } else if version == 12 {
        assert((55int) / (4int) == 13) by (nonlinear_arith);
        assert(alignment_step(12) == 26);
        assert(rule_centers(12).len() == 3);
        assert(rule_centers(12)[0] == 6u32);
        assert(rule_centers(12)[1] == 32u32);
        assert(rule_centers(12)[2] == 58u32);
        assert(spec_alignment_centers(12) =~= rule_centers(12));
    } else if version == 13 {
        assert((59int) / (4int) == 14) by (nonlinear_arith);
        assert(alignment_step(13) == 28);
        assert(rule_centers(13).len() == 3);
        assert(rule_centers(13)[0] == 6u32);
        assert(rule_centers(13)[1] == 34u32);
        assert(rule_centers(13)[2] == 62u32);
        assert(spec_alignment_centers(13) =~= rule_centers(13));
    } else if version == 14 {
        assert((65int) / (6int) == 10) by (nonlinear_arith);
        assert(alignment_step(14) == 20);
        assert(rule_centers(14).len() == 4);
        assert(rule_centers(14)[0] == 6u32);
        assert(rule_centers(14)[1] == 26u32);
        assert(rule_centers(14)[2] == 46u32);
        assert(rule_centers(14)[3] == 66u32);
        assert(spec_alignment_centers(14) =~= rule_centers(14));
    } else if version == 15 {
        assert((69int) / (6int) == 11) by (nonlinear_arith);
        assert(alignment_step(15) == 22);
        assert(rule_centers(15).len() == 4);
        assert(rule_centers(15)[0] == 6u32);
        assert(rule_centers(15)[1] == 26u32);
        assert(rule_centers(15)[2] == 48u32);
        assert(rule_centers(15)[3] == 70u32);
        assert(spec_alignment_centers(15) =~= rule_centers(15));
    } else if version == 16 {
        assert((73int) / (6int) == 12) by (nonlinear_arith);
        assert(alignment_step(16) == 24);
        assert(rule_centers(16).len() == 4);
        assert(rule_centers(16)[0] == 6u32);
        assert(rule_centers(16)[1] == 26u32);
        assert(rule_centers(16)[2] == 50u32);
        assert(rule_centers(16)[3] == 74u32);
        assert(spec_alignment_centers(16) =~= rule_centers(16));
    } else if version == 17 {
        assert((77int) / (6int) == 12) by (nonlinear_arith);
        assert(alignment_step(17) == 24);
        assert(rule_centers(17).len() == 4);
        assert(rule_centers(17)[0] == 6u32);
        assert(rule_centers(17)[1] == 30u32);
        assert(rule_centers(17)[2] == 54u32);
        assert(rule_centers(17)[3] == 78u32);
        assert(spec_alignment_centers(17) =~= rule_centers(17));
    } else if version == 18 {
        assert((81int) / (6int) == 13) by (nonlinear_arith);
        assert(alignment_step(18) == 26);
        assert(rule_centers(18).len() == 4);
        assert(rule_centers(18)[0] == 6u32);
        assert(rule_centers(18)[1] == 30u32);
        assert(rule_centers(18)[2] == 56u32);
        assert(rule_centers(18)[3] == 82u32);
        assert(spec_alignment_centers(18) =~= rule_centers(18));
    } else if version == 19 {
        assert((85int) / (6int) == 14) by (nonlinear_arith);
        assert(alignment_step(19) == 28);
        assert(rule_centers(19).len() == 4);
        assert(rule_centers(19)[0] == 6u32);
        assert(rule_centers(19)[1] == 30u32);
        assert(rule_centers(19)[2] == 58u32);
        assert(rule_centers(19)[3] == 86u32);
        assert(spec_alignment_centers(19) =~= rule_centers(19));
    } else if version == 20 {
        assert((89int) / (6int) == 14) by (nonlinear_arith);
        assert(alignment_step(20) == 28);
        assert(rule_centers(20).len() == 4);
        assert(rule_centers(20)[0] == 6u32);
        assert(rule_centers(20)[1] == 34u32);
        assert(rule_centers(20)[2] == 62u32);
        assert(rule_centers(20)[3] == 90u32);
        assert(spec_alignment_centers(20) =~= rule_centers(20));
    } else if version == 21 {
        assert((95int) / (8int) == 11) by (nonlinear_arith);
        assert(alignment_step(21) == 22);
        assert(rule_centers(21).len() == 5);
        assert(rule_centers(21)[0] == 6u32);
        assert(rule_centers(21)[1] == 28u32);
        assert(rule_centers(21)[2] == 50u32);
        assert(rule_centers(21)[3] == 72u32);
        assert(rule_centers(21)[4] == 94u32);
        assert(spec_alignment_centers(21) =~= rule_centers(21));
    } else if version == 22 {
        assert((99int) / (8int) == 12) by (nonlinear_arith);
        assert(alignment_step(22) == 24);
        assert(rule_centers(22).len() == 5);
        assert(rule_centers(22)[0] == 6u32);
        assert(rule_centers(22)[1] == 26u32);
        assert(rule_centers(22)[2] == 50u32);
        assert(rule_centers(22)[3] == 74u32);
        assert(rule_centers(22)[4] == 98u32);
        assert(spec_alignment_centers(22) =~= rule_centers(22));
    } else if version == 23 {
        assert((103int) / (8int) == 12) by (nonlinear_arith);
        assert(alignment_step(23) == 24);
        assert(rule_centers(23).len() == 5);
        assert(rule_centers(23)[0] == 6u32);
        assert(rule_centers(23)[1] == 30u32);
        assert(rule_centers(23)[2] == 54u32);
        assert(rule_centers(23)[3] == 78u32);
        assert(rule_centers(23)[4] == 102u32);
        assert(spec_alignment_centers(23) =~= rule_centers(23));
    } else if version == 24 {
        assert((107int) / (8int) == 13) by (nonlinear_arith);
        assert(alignment_step(24) == 26);
        assert(rule_centers(24).len() == 5);
        assert(rule_centers(24)[0] == 6u32);
        assert(rule_centers(24)[1] == 28u32);
        assert(rule_centers(24)[2] == 54u32);
        assert(rule_centers(24)[3] == 80u32);
        assert(rule_centers(24)[4] == 106u32);
        assert(spec_alignment_centers(24) =~= rule_centers(24));
    } else if version == 25 {
        assert((111int) / (8int) == 13) by (nonlinear_arith);
        assert(alignment_step(25) == 26);
        assert(rule_centers(25).len() == 5);
        assert(rule_centers(25)[0] == 6u32);
        assert(rule_centers(25)[1] == 32u32);
        assert(rule_centers(25)[2] == 58u32);
        assert(rule_centers(25)[3] == 84u32);
        assert(rule_centers(25)[4] == 110u32);
        assert(spec_alignment_centers(25) =~= rule_centers(25));
    } else if version == 26 {
        assert((115int) / (8int) == 14) by (nonlinear_arith);
        assert(alignment_step(26) == 28);
        assert(rule_centers(26).len() == 5);
        assert(rule_centers(26)[0] == 6u32);
        assert(rule_centers(26)[1] == 30u32);
        assert(rule_centers(26)[2] == 58u32);
        assert(rule_centers(26)[3] == 86u32);
        assert(rule_centers(26)[4] == 114u32);
        assert(spec_alignment_centers(26) =~= rule_centers(26));
    } else if version == 27 {
        assert((119int) / (8int) == 14) by (nonlinear_arith);
        assert(alignment_step(27) == 28);
        assert(rule_centers(27).len() == 5);
        assert(rule_centers(27)[0] == 6u32);
        assert(rule_centers(27)[1] == 34u32);
        assert(rule_centers(27)[2] == 62u32);
        assert(rule_centers(27)[3] == 90u32);
        assert(rule_centers(27)[4] == 118u32);
        assert(spec_alignment_centers(27) =~= rule_centers(27));
    } else if version == 28 {
        assert((125int) / (10int) == 12) by (nonlinear_arith);
        assert(alignment_step(28) == 24);
        assert(rule_centers(28).len() == 6);
        assert(rule_centers(28)[0] == 6u32);
        assert(rule_centers(28)[1] == 26u32);
        assert(rule_centers(28)[2] == 50u32);
        assert(rule_centers(28)[3] == 74u32);
        assert(rule_centers(28)[4] == 98u32);
        assert(rule_centers(28)[5] == 122u32);
        assert(spec_alignment_centers(28) =~= rule_centers(28));
    } else if version == 29 {
        assert((129int) / (10int) == 12) by (nonlinear_arith);
        assert(alignment_step(29) == 24);
        assert(rule_centers(29).len() == 6);
        assert(rule_centers(29)[0] == 6u32);
        assert(rule_centers(29)[1] == 30u32);
        assert(rule_centers(29)[2] == 54u32);
        assert(rule_centers(29)[3] == 78u32);
        assert(rule_centers(29)[4] == 102u32);
        assert(rule_centers(29)[5] == 126u32);
        assert(spec_alignment_centers(29) =~= rule_centers(29));
    } else if version == 30 {
        assert((133int) / (10int) == 13) by (nonlinear_arith);
        assert(alignment_step(30) == 26);
        assert(rule_centers(30).len() == 6);
        assert(rule_centers(30)[0] == 6u32);
        assert(rule_centers(30)[1] == 26u32);
        assert(rule_centers(30)[2] == 52u32);
        assert(rule_centers(30)[3] == 78u32);
        assert(rule_centers(30)[4] == 104u32);
        assert(rule_centers(30)[5] == 130u32);
        assert(spec_alignment_centers(30) =~= rule_centers(30));
    } else if version == 31 {
        assert((137int) / (10int) == 13) by (nonlinear_arith);
        assert(alignment_step(31) == 26);
        assert(rule_centers(31).len() == 6);
        assert(rule_centers(31)[0] == 6u32);
        assert(rule_centers(31)[1] == 30u32);
        assert(rule_centers(31)[2] == 56u32);
        assert(rule_centers(31)[3] == 82u32);
        assert(rule_centers(31)[4] == 108u32);
        assert(rule_centers(31)[5] == 134u32);
        assert(spec_alignment_centers(31) =~= rule_centers(31));
    } else if version == 32 {
        assert(alignment_step(32) == 26);
        assert(rule_centers(32).len() == 6);
        assert(rule_centers(32)[0] == 6u32);
        assert(rule_centers(32)[1] == 34u32);
        assert(rule_centers(32)[2] == 60u32);
        assert(rule_centers(32)[3] == 86u32);
        assert(rule_centers(32)[4] == 112u32);
        assert(rule_centers(32)[5] == 138u32);
        assert(spec_alignment_centers(32) =~= rule_centers(32));
    } else if version == 33 {
        assert((145int) / (10int) == 14) by (nonlinear_arith);
        assert(alignment_step(33) == 28);
        assert(rule_centers(33).len() == 6);
        assert(rule_centers(33)[0] == 6u32);
        assert(rule_centers(33)[1] == 30u32);
        assert(rule_centers(33)[2] == 58u32);
        assert(rule_centers(33)[3] == 86u32);
        assert(rule_centers(33)[4] == 114u32);
        assert(rule_centers(33)[5] == 142u32);
        assert(spec_alignment_centers(33) =~= rule_centers(33));
    } else if version == 34 {
        assert((149int) / (10int) == 14) by (nonlinear_arith);
        assert(alignment_step(34) == 28);
        assert(rule_centers(34).len() == 6);
        assert(rule_centers(34)[0] == 6u32);
        assert(rule_centers(34)[1] == 34u32);
        assert(rule_centers(34)[2] == 62u32);
        assert(rule_centers(34)[3] == 90u32);
        assert(rule_centers(34)[4] == 118u32);
        assert(rule_centers(34)[5] == 146u32);
        assert(spec_alignment_centers(34) =~= rule_centers(34));
    } else if version == 35 {
        assert((155int) / (12int) == 12) by (nonlinear_arith);
        assert(alignment_step(35) == 24);
        assert(rule_centers(35).len() == 7);
        assert(rule_centers(35)[0] == 6u32);
        assert(rule_centers(35)[1] == 30u32);
        assert(rule_centers(35)[2] == 54u32);
        assert(rule_centers(35)[3] == 78u32);
        assert(rule_centers(35)[4] == 102u32);
        assert(rule_centers(35)[5] == 126u32);
        assert(rule_centers(35)[6] == 150u32);
        assert(spec_alignment_centers(35) =~= rule_centers(35));
    } else if version == 36 {
        assert((159int) / (12int) == 13) by (nonlinear_arith);
        assert(alignment_step(36) == 26);
        assert(rule_centers(36).len() == 7);
        assert(rule_centers(36)[0] == 6u32);
        assert(rule_centers(36)[1] == 24u32);
        assert(rule_centers(36)[2] == 50u32);
        assert(rule_centers(36)[3] == 76u32);
        assert(rule_centers(36)[4] == 102u32);
        assert(rule_centers(36)[5] == 128u32);
        assert(rule_centers(36)[6] == 154u32);
        assert(spec_alignment_centers(36) =~= rule_centers(36));
    } else if version == 37 {
        assert((163int) / (12int) == 13) by (nonlinear_arith);
        assert(alignment_step(37) == 26);
        assert(rule_centers(37).len() == 7);
        assert(rule_centers(37)[0] == 6u32);
        assert(rule_centers(37)[1] == 28u32);
        assert(rule_centers(37)[2] == 54u32);
        assert(rule_centers(37)[3] == 80u32);
        assert(rule_centers(37)[4] == 106u32);
        assert(rule_centers(37)[5] == 132u32);
        assert(rule_centers(37)[6] == 158u32);
        assert(spec_alignment_centers(37) =~= rule_centers(37));
    } else if version == 38 {
        assert((167int) / (12int) == 13) by (nonlinear_arith);
        assert(alignment_step(38) == 26);
        assert(rule_centers(38).len() == 7);
        assert(rule_centers(38)[0] == 6u32);
        assert(rule_centers(38)[1] == 32u32);
        assert(rule_centers(38)[2] == 58u32);
        assert(rule_centers(38)[3] == 84u32);
        assert(rule_centers(38)[4] == 110u32);
        assert(rule_centers(38)[5] == 136u32);
        assert(rule_centers(38)[6] == 162u32);
        assert(spec_alignment_centers(38) =~= rule_centers(38));
    } else if version == 39 {
        assert((171int) / (12int) == 14) by (nonlinear_arith);
        assert(alignment_step(39) == 28);
        assert(rule_centers(39).len() == 7);
        assert(rule_centers(39)[0] == 6u32);
        assert(rule_centers(39)[1] == 26u32);
        assert(rule_centers(39)[2] == 54u32);
        assert(rule_centers(39)[3] == 82u32);
        assert(rule_centers(39)[4] == 110u32);
        assert(rule_centers(39)[5] == 138u32);
        assert(rule_centers(39)[6] == 166u32);
        assert(spec_alignment_centers(39) =~= rule_centers(39));
    } else if version == 40 {
        assert((175int) / (12int) == 14) by (nonlinear_arith);
        assert(alignment_step(40) == 28);
        assert(rule_centers(40).len() == 7);
        assert(rule_centers(40)[0] == 6u32);
        assert(rule_centers(40)[1] == 30u32);
        assert(rule_centers(40)[2] == 58u32);
        assert(rule_centers(40)[3] == 86u32);
        assert(rule_centers(40)[4] == 114u32);
        assert(rule_centers(40)[5] == 142u32);
        assert(rule_centers(40)[6] == 170u32);
        assert(spec_alignment_centers(40) =~= rule_centers(40));
    }
}

} // verus!
