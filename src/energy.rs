use vstd::prelude::*;

verus! {

/// The unit in which an energy is shown.
#[derive(Clone, Copy, Debug, PartialEq, Eq, Structural)]
pub enum EnergyUnit {
    EV,
    KEV,
    MEV,
    GEV,
    TEV,
    PEV,
    EEV,
    ZEV,
}

/// An energy as shown: a number of thousandths of `unit`.
#[derive(Clone, Copy, Debug, PartialEq, Eq, Structural)]
pub struct EnergyLabel {
    pub thousandths: u128,
    pub unit: EnergyUnit,
}

/// The unit for an energy of `e` milli-electronvolts: the largest unit, from
/// eV to ZeV by factors of a thousand, that the energy reaches (eV below
/// 1 keV, ZeV from 1 ZeV on).
pub open spec fn unit_of(e: u128) -> EnergyUnit {
    if e < 1_000_000 {
        EnergyUnit::EV
    } else if e < 1_000_000_000 {
        EnergyUnit::KEV
    } else if e < 1_000_000_000_000 {
        EnergyUnit::MEV
    } else if e < 1_000_000_000_000_000 {
        EnergyUnit::GEV
    } else if e < 1_000_000_000_000_000_000 {
        EnergyUnit::TEV
    } else if e < 1_000_000_000_000_000_000_000 {
        EnergyUnit::PEV
    } else if e < 1_000_000_000_000_000_000_000_000 {
        EnergyUnit::EEV
    } else {
        EnergyUnit::ZEV
    }
}

/// A thousandth of `u`, in milli-electronvolts.
pub open spec fn step_of(u: EnergyUnit) -> u128 {
    match u {
        EnergyUnit::EV => 1,
        EnergyUnit::KEV => 1_000,
        EnergyUnit::MEV => 1_000_000,
        EnergyUnit::GEV => 1_000_000_000,
        EnergyUnit::TEV => 1_000_000_000_000,
        EnergyUnit::PEV => 1_000_000_000_000_000,
        EnergyUnit::EEV => 1_000_000_000_000_000_000,
        EnergyUnit::ZEV => 1_000_000_000_000_000_000_000,
    }
}

/// `e` divided by `s`, rounded to the nearest, halves up.
pub open spec fn rounded_div(e: u128, s: u128) -> int
    recommends
        s > 0,
{
    e as int / s as int + if (e as int % s as int) * 2 >= s as int { 1int } else { 0int }
}

/// How an energy of `e` milli-electronvolts is shown: in the unit that it
/// reaches, with three decimals, rounded to the nearest.
pub fn energy_label(e: u128) -> (r: EnergyLabel)
    ensures
        r.unit == unit_of(e),
        r.thousandths == rounded_div(e, step_of(r.unit)),
{
    let (unit, step): (EnergyUnit, u128) = if e < 1_000_000 {
        (EnergyUnit::EV, 1)
    } else if e < 1_000_000_000 {
        (EnergyUnit::KEV, 1_000)
    } else if e < 1_000_000_000_000 {
        (EnergyUnit::MEV, 1_000_000)
    } else if e < 1_000_000_000_000_000 {
        (EnergyUnit::GEV, 1_000_000_000)
    } else if e < 1_000_000_000_000_000_000 {
        (EnergyUnit::TEV, 1_000_000_000_000)
    } else if e < 1_000_000_000_000_000_000_000 {
        (EnergyUnit::PEV, 1_000_000_000_000_000)
    } else if e < 1_000_000_000_000_000_000_000_000 {
        (EnergyUnit::EEV, 1_000_000_000_000_000_000)
    } else {
        (EnergyUnit::ZEV, 1_000_000_000_000_000_000_000)
    };
    let q = e / step;
    let rem = e % step;
    proof {
        assert(q as int == e as int / step as int);
        assert(q as int * step as int <= e as int) by (nonlinear_arith)
            requires q as int == e as int / step as int, step > 0, e >= 0;
        assert(q as int <= e as int) by (nonlinear_arith)
            requires q as int * step as int <= e as int, step >= 1, q >= 0;
        assert(rem < step);
    }
    let up: u128 = if rem >= step - rem { 1 } else { 0 };
    proof {
        if up == 1 {
            assert(step > 1);
            assert(q < u128::MAX) by (nonlinear_arith)
                requires q as int * step as int <= e as int, step > 1, e <= u128::MAX;
        }
    }
    let thousandths = q + up;
    EnergyLabel { thousandths, unit }
}

} // verus!
