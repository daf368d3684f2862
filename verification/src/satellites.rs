//! The embedded database of satellite two-line elements and the pixel
//! search that feeds the streak detector.
use vstd::prelude::*;
use crate::raster::{GrayPlane, GrayView};

verus! {

/// One tracked satellite with its two-line orbital elements.
#[derive(Clone, Copy, Debug)]
pub struct SatelliteTle {
    pub name: &'static str,
    pub norad_id: u32,
    pub line1: &'static str,
    pub line2: &'static str,
}

/// The satellites that the library knows, in lookup order.
pub open spec fn spec_satellite_database() -> Seq<SatelliteTle> {
    seq![
        SatelliteTle {
            name: "ISS (ZARYA)",
            norad_id: 25544,
            line1: "1 25544U 98067A   26038.51341435  .00014320  00000-0  24324-3 0  9993",
            line2: "2 25544  51.6448 147.2862 0002641 120.4852 301.7645 15.49187318259464",
        },
        SatelliteTle {
            name: "HST (HUBBLE)",
            norad_id: 20580,
            line1: "1 20580U 90037B   26038.40000000  .00001000  00000-0  10000-4 0  9993",
            line2: "2 20580  28.4690 200.1234 0002800  90.1234 270.4321 15.09000000123456",
        },
        SatelliteTle {
            name: "TIANGONG (CSS)",
            norad_id: 48274,
            line1: "1 48274U 21035A   26038.50000000  .00010200  00000-0  18000-3 0  9995",
            line2: "2 48274  41.4700 120.5000 0007200  30.0000 330.0000 15.62000000 10004",
        },
        SatelliteTle {
            name: "STARLINK-1007",
            norad_id: 44713,
            line1: "1 44713U 19074A   26038.45000000  .00004500  00000-0  30000-3 0  9993",
            line2: "2 44713  53.0500 200.0000 0001200 270.0000  90.0000 15.06000000 20001",
        },
    ]
}

/// Returns the embedded satellite database.
pub fn get_satellite_database() -> (db: Vec<SatelliteTle>)
    ensures
        db@ == spec_satellite_database(),
{
    let mut db: Vec<SatelliteTle> = Vec::new();
    db.push(SatelliteTle {
        name: "ISS (ZARYA)",
        norad_id: 25544,
        line1: "1 25544U 98067A   26038.51341435  .00014320  00000-0  24324-3 0  9993",
        line2: "2 25544  51.6448 147.2862 0002641 120.4852 301.7645 15.49187318259464",
    });
    db.push(SatelliteTle {
        name: "HST (HUBBLE)",
        norad_id: 20580,
        line1: "1 20580U 90037B   26038.40000000  .00001000  00000-0  10000-4 0  9993",
        line2: "2 20580  28.4690 200.1234 0002800  90.1234 270.4321 15.09000000123456",
    });
    db.push(SatelliteTle {
        name: "TIANGONG (CSS)",
        norad_id: 48274,
        line1: "1 48274U 21035A   26038.50000000  .00010200  00000-0  18000-3 0  9995",
        line2: "2 48274  41.4700 120.5000 0007200  30.0000 330.0000 15.62000000 10004",
    });
    db.push(SatelliteTle {
        name: "STARLINK-1007",
        norad_id: 44713,
        line1: "1 44713U 19074A   26038.45000000  .00004500  00000-0  30000-3 0  9993",
        line2: "2 44713  53.0500 200.0000 0001200 270.0000  90.0000 15.06000000 20001",
    });
    db
}

/// The first entry of `s` with NORAD catalogue number `id`, if any.
pub open spec fn first_with_id(s: Seq<SatelliteTle>, id: u32) -> Option<SatelliteTle>
    decreases s.len(),
{
    if s.len() == 0 {
        None
    } else if s[0].norad_id == id {
        Some(s[0])
    } else {
        first_with_id(s.drop_first(), id)
    }
}

/// Looks up the elements of the satellite with the given NORAD catalogue
/// number: the first database entry with that number, or `None`.
pub fn fetch_tle(norad_id: u32) -> (r: Option<SatelliteTle>)
    ensures
        r == first_with_id(spec_satellite_database(), norad_id),
{
    let db = get_satellite_database();
    let n = db.len();
    let mut i: usize = 0;
    proof {
        assert(db@.subrange(0, n as int) =~= db@);
    }
    while i < n
        invariant
            db@ == spec_satellite_database(),
            n == db@.len(),
            0 <= i <= n,
            first_with_id(db@, norad_id) == first_with_id(db@.subrange(i as int, n as int), norad_id),
        decreases n - i,
    {
        proof {
            assert(db@.subrange(i as int, n as int).drop_first() =~= db@.subrange(i + 1, n as int));
        }
        if db[i].norad_id == norad_id {
            return Some(db[i]);
        }
        i = i + 1;
    }
    None
}

/// Every satellite of the database is found by its own catalogue number: the
/// numbers are distinct, so the lookup returns that very entry.
pub proof fn lemma_lookup_finds_every_entry(i: int)
    requires
        0 <= i < spec_satellite_database().len(),
    ensures
        first_with_id(spec_satellite_database(), spec_satellite_database()[i].norad_id)
            == Some(spec_satellite_database()[i]),
{
    let db = spec_satellite_database();
    reveal_with_fuel(first_with_id, 5);
    assert(db.drop_first() =~= seq![db[1], db[2], db[3]]);
    assert(db.drop_first().drop_first() =~= seq![db[2], db[3]]);
    assert(db.drop_first().drop_first().drop_first() =~= seq![db[3]]);
}

/// The character of a decimal digit.
pub open spec fn decimal_digit(d: int) -> char {
    (48 + d) as char
}

/// The five decimal digits of a catalogue number, leading zeros included.
pub open spec fn five_digits(n: int) -> Seq<char> {
    seq![
        decimal_digit(n / 10000 % 10),
        decimal_digit(n / 1000 % 10),
        decimal_digit(n / 100 % 10),
        decimal_digit(n / 10 % 10),
        decimal_digit(n % 10),
    ]
}

/// Every database entry carries its own elements: both element lines are 69
/// characters long, the first starts with `1 ` and the second with `2 `, each
/// followed by the entry's five-digit catalogue number.
pub proof fn lemma_element_lines_carry_id(i: int)
    requires
        0 <= i < spec_satellite_database().len(),
    ensures
        spec_satellite_database()[i].line1@.len() == 69,
        spec_satellite_database()[i].line2@.len() == 69,
        spec_satellite_database()[i].line1@.subrange(0, 7)
            == seq!['1', ' '] + five_digits(spec_satellite_database()[i].norad_id as int),
        spec_satellite_database()[i].line2@.subrange(0, 7)
            == seq!['2', ' '] + five_digits(spec_satellite_database()[i].norad_id as int),
{
    reveal_strlit("1 25544U 98067A   26038.51341435  .00014320  00000-0  24324-3 0  9993");
    reveal_strlit("2 25544  51.6448 147.2862 0002641 120.4852 301.7645 15.49187318259464");
    reveal_strlit("1 20580U 90037B   26038.40000000  .00001000  00000-0  10000-4 0  9993");
    reveal_strlit("2 20580  28.4690 200.1234 0002800  90.1234 270.4321 15.09000000123456");
    reveal_strlit("1 48274U 21035A   26038.50000000  .00010200  00000-0  18000-3 0  9995");
    reveal_strlit("2 48274  41.4700 120.5000 0007200  30.0000 330.0000 15.62000000 10004");
    reveal_strlit("1 44713U 19074A   26038.45000000  .00004500  00000-0  30000-3 0  9993");
    reveal_strlit("2 44713  53.0500 200.0000 0001200 270.0000  90.0000 15.06000000 20001");
    let t = spec_satellite_database()[i];
    assert(t.line1@.subrange(0, 7) =~= seq!['1', ' '] + five_digits(t.norad_id as int));
    assert(t.line2@.subrange(0, 7) =~= seq!['2', ' '] + five_digits(t.norad_id as int));
}

/// Pixels brighter than this value are streak candidates.
pub const STREAK_THRESHOLD: u8 = 140;

/// The candidates among the first `n` sampled columns (0, 2, 4, ...) of row `y`.
pub open spec fn bright_in_row(v: GrayView, y: int, n: int) -> Seq<(u32, u32)>
    decreases n,
{
    if n <= 0 {
        Seq::empty()
    } else {
        let prev = bright_in_row(v, y, n - 1);
        let x = 2 * (n - 1);
        if v.px(x, y) > STREAK_THRESHOLD { prev.push((x as u32, y as u32)) } else { prev }
    }
}

/// The candidates of the first `rows` sampled rows (0, 2, 4, ...), row by row.
pub open spec fn bright_rows(v: GrayView, rows: int) -> Seq<(u32, u32)>
    decreases rows,
{
    if rows <= 0 {
        Seq::empty()
    } else {
        bright_rows(v, rows - 1) + bright_in_row(v, 2 * (rows - 1), ((v.width + 1) / 2) as int)
    }
}

/// The streak candidates above row `effective_height`: every other pixel of
/// every other row that is brighter than `STREAK_THRESHOLD`, in scan order.
pub open spec fn streak_candidates(v: GrayView, effective_height: int) -> Seq<(u32, u32)> {
    bright_rows(v, (effective_height + 1) / 2)
}

/// Collects the streak candidates above row `effective_height`.
pub fn collect_streak_pixels(img: &GrayPlane, effective_height: u32) -> (r: Vec<(u32, u32)>)
    requires
        2 * ((effective_height + 1) / 2) <= img@.height + 1,
    ensures
        r@ == streak_candidates(img@, effective_height as int),
{
    let w = img.width();
    let ghost v = img@;
    let eh = effective_height;
    let mut out: Vec<(u32, u32)> = Vec::new();
    let mut y: u64 = 0;
    let ghost mut rows: int = 0;
    while y < eh as u64
        invariant
            v == img@,
            v.wf(),
            w == v.width,
            2 * ((eh + 1) / 2) <= v.height + 1,
            y == 2 * rows,
            0 <= rows <= (eh + 1) / 2,
            y < eh ==> rows < (eh + 1) / 2,
            y >= eh ==> rows == (eh + 1) / 2,
            y <= eh + 1,
            out@ == bright_rows(v, rows),
        decreases eh + 2 - y,
    {
        let mut x: u64 = 0;
        let ghost mut j: int = 0;
        let ghost base = out@;
        while x < w as u64
            invariant
                v == img@,
                v.wf(),
                w == v.width,
                y < eh,
                y < v.height,
                x == 2 * j,
                0 <= j <= (w + 1) / 2,
                x < w ==> j < (w + 1) / 2,
                x >= w ==> j == (w + 1) / 2,
                x <= w + 1,
                base == bright_rows(v, rows),
                out@ == base + bright_in_row(v, y as int, j),
            decreases w + 2 - x,
        {
            let p = img.pixel(x as u32, y as u32);
            if p > STREAK_THRESHOLD {
                out.push((x as u32, y as u32));
                proof {
                    assert(base + bright_in_row(v, y as int, j + 1)
                        =~= (base + bright_in_row(v, y as int, j)).push((x as u32, y as u32)));
                }
            }
            proof {
                j = j + 1;
            }
            x = x + 2;
        }
        proof {
            rows = rows + 1;
        }
        y = y + 2;
    }
    out
}

} // verus!
