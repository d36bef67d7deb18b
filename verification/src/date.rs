//! Modification-time fields: converting a unix timestamp (seconds since
//! 1970-01-01, UTC) to the civil year, month and day that date directives
//! render. The computation is the era-based civil-calendar algorithm; each
//! subtraction carries a saturating guard so the function is total over the
//! whole input type, and the spec mirrors the guards exactly.
use vstd::prelude::*;

verus! {

/// The civil date of a unix timestamp: (year, month, day), month in 1..=12,
/// day in 1..=31.
pub open spec fn spec_civil_from_unix(secs: nat) -> (nat, nat, nat) {
    let days = secs as int / 86400;
    let z = days + 719468;
    let era = z / 146097;
    let doe = z % 146097;
    let a1 = if doe >= doe / 1460 {
        doe - doe / 1460
    } else {
        0
    };
    let a2 = a1 + doe / 36524;
    let a3 = if a2 >= doe / 146096 {
        a2 - doe / 146096
    } else {
        0
    };
    let yoe = a3 / 365;
    let y = yoe + era * 400;
    let t1 = 365 * yoe + yoe / 4;
    let ydays = if t1 >= yoe / 100 {
        t1 - yoe / 100
    } else {
        0
    };
    let doy0 = if doe >= ydays {
        doe - ydays
    } else {
        0
    };
    let doy = if doy0 > 365 {
        365
    } else {
        doy0
    };
    let mp0 = (5 * doy + 2) / 153;
    let mp = if mp0 > 11 {
        11
    } else {
        mp0
    };
    let md = (153 * mp + 2) / 5;
    let d0 = if doy >= md {
        doy - md + 1
    } else {
        1
    };
    let d = if d0 > 31 {
        31
    } else {
        d0
    };
    let m = if mp < 10 {
        mp + 3
    } else {
        mp - 9
    };
    let yy = if m <= 2 {
        y + 1
    } else {
        y
    };
    (yy as nat, m as nat, d as nat)
}

/// Converts a unix timestamp to its civil (year, month, day).
pub fn civil_from_unix(secs: u64) -> (r: (u64, u64, u64))
    ensures
        (r.0 as nat, r.1 as nat, r.2 as nat) == spec_civil_from_unix(secs as nat),
        1 <= r.1 <= 12,
        1 <= r.2 <= 31,
{
    let days: u64 = secs / 86400;
    let z: u64 = days + 719468;
    let era: u64 = z / 146097;
    let doe: u64 = z % 146097;
    proof {
        assert(doe < 146097);
        assert(era * 146097 <= z);
        assert(era <= z) by (nonlinear_arith)
            requires
                era >= 0 && era * 146097 <= z,
        ;
    }
    let a1: u64 = if doe >= doe / 1460 {
        doe - doe / 1460
    } else {
        0
    };
    let a2: u64 = a1 + doe / 36524;
    let a3: u64 = if a2 >= doe / 146096 {
        a2 - doe / 146096
    } else {
        0
    };
    proof {
        assert(a3 <= 146097 + 146097);
        assert((a3 / 365) * 365 <= a3);
        assert(a3 / 365 <= 801) by (nonlinear_arith)
            requires
                a3 <= 292194 && (a3 / 365) * 365 <= a3 && a3 / 365 >= 0,
        ;
    }
    let yoe: u64 = a3 / 365;
    let y: u64 = yoe + era * 400;
    let t1: u64 = 365 * yoe + yoe / 4;
    let ydays: u64 = if t1 >= yoe / 100 {
        t1 - yoe / 100
    } else {
        0
    };
    let doy0: u64 = if doe >= ydays {
        doe - ydays
    } else {
        0
    };
    let doy: u64 = if doy0 > 365 {
        365
    } else {
        doy0
    };
    let mp0: u64 = (5 * doy + 2) / 153;
    let mp: u64 = if mp0 > 11 {
        11
    } else {
        mp0
    };
    let md: u64 = (153 * mp + 2) / 5;
    let d0: u64 = if doy >= md {
        doy - md + 1
    } else {
        1
    };
    let d: u64 = if d0 > 31 {
        31
    } else {
        d0
    };
    let m: u64 = if mp < 10 {
        mp + 3
    } else {
        mp - 9
    };
    let yy: u64 = if m <= 2 {
        y + 1
    } else {
        y
    };
    (yy, m, d)
}

} // verus!
