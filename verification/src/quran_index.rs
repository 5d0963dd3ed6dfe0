//! Page geometry of the 604-page Madani mushaf: where each surah and each
//! juz begins.
use vstd::prelude::*;

verus! {

/// Number of pages of the mushaf.
pub const TOTAL_PAGES: u32 = 604;

/// First page of each surah, surah 1 first.
pub const SURAH_START_PAGES: [u32; 114] = [
    1, 2, 50, 77, 106, 128, 151, 177, 187, 208,
    222, 235, 249, 255, 262, 267, 282, 293, 305, 312,
    322, 332, 342, 350, 359, 367, 377, 385, 396, 404,
    411, 415, 418, 428, 434, 440, 446, 453, 458, 467,
    477, 483, 489, 496, 499, 502, 507, 511, 515, 518,
    520, 523, 526, 528, 531, 534, 537, 542, 545, 549,
    551, 553, 554, 556, 558, 560, 562, 564, 566, 568,
    570, 572, 574, 575, 577, 578, 580, 582, 583, 585,
    586, 587, 587, 589, 590, 591, 591, 592, 593, 594,
    595, 595, 596, 596, 597, 597, 598, 598, 599, 599,
    600, 600, 601, 601, 601, 602, 602, 602, 603, 603,
    603, 604, 604, 604,
];

/// First page of surah `surah` (1-based); 0 outside 1..=114.
pub open spec fn surah_start(surah: int) -> int {
    if surah == 1 {
        1
    } else if surah == 2 {
        2
    } else if surah == 3 {
        50
    } else if surah == 4 {
        77
    } else if surah == 5 {
        106
    } else if surah == 6 {
        128
    } else if surah == 7 {
        151
    } else if surah == 8 {
        177
    } else if surah == 9 {
        187
    } else if surah == 10 {
        208
    } else if surah == 11 {
        222
    } else if surah == 12 {
        235
    } else if surah == 13 {
        249
    } else if surah == 14 {
        255
    } else if surah == 15 {
        262
    } else if surah == 16 {
        267
    } else if surah == 17 {
        282
    } else if surah == 18 {
        293
    } else if surah == 19 {
        305
    } else if surah == 20 {
        312
    } else if surah == 21 {
        322
    } else if surah == 22 {
        332
    } else if surah == 23 {
        342
    } else if surah == 24 {
        350
    } else if surah == 25 {
        359
    } else if surah == 26 {
        367
    } else if surah == 27 {
        377
    } else if surah == 28 {
        385
    } else if surah == 29 {
        396
    } else if surah == 30 {
        404
    } else if surah == 31 {
        411
    } else if surah == 32 {
        415
    } else if surah == 33 {
        418
    } else if surah == 34 {
        428
    } else if surah == 35 {
        434
    } else if surah == 36 {
        440
    } else if surah == 37 {
        446
    } else if surah == 38 {
        453
    } else if surah == 39 {
        458
    } else if surah == 40 {
        467
    } else if surah == 41 {
        477
    } else if surah == 42 {
        483
    } else if surah == 43 {
        489
    } else if surah == 44 {
        496
    } else if surah == 45 {
        499
    } else if surah == 46 {
        502
    } else if surah == 47 {
        507
    } else if surah == 48 {
        511
    } else if surah == 49 {
        515
    } else if surah == 50 {
        518
    } else if surah == 51 {
        520
    } else if surah == 52 {
        523
    } else if surah == 53 {
        526
    } else if surah == 54 {
        528
    } else if surah == 55 {
        531
    } else if surah == 56 {
        534
    } else if surah == 57 {
        537
    } else if surah == 58 {
        542
    } else if surah == 59 {
        545
    } else if surah == 60 {
        549
    } else if surah == 61 {
        551
    } else if surah == 62 {
        553
    } else if surah == 63 {
        554
    } else if surah == 64 {
        556
    } else if surah == 65 {
        558
    } else if surah == 66 {
        560
    } else if surah == 67 {
        562
    } else if surah == 68 {
        564
    } else if surah == 69 {
        566
    } else if surah == 70 {
        568
    } else if surah == 71 {
        570
    } else if surah == 72 {
        572
    } else if surah == 73 {
        574
    } else if surah == 74 {
        575
    } else if surah == 75 {
        577
    } else if surah == 76 {
        578
    } else if surah == 77 {
        580
    } else if surah == 78 {
        582
    } else if surah == 79 {
        583
    } else if surah == 80 {
        585
    } else if surah == 81 {
        586
    } else if surah == 82 {
        587
    } else if surah == 83 {
        587
    } else if surah == 84 {
        589
    } else if surah == 85 {
        590
    } else if surah == 86 {
        591
    } else if surah == 87 {
        591
    } else if surah == 88 {
        592
    } else if surah == 89 {
        593
    } else if surah == 90 {
        594
    } else if surah == 91 {
        595
    } else if surah == 92 {
        595
    } else if surah == 93 {
        596
    } else if surah == 94 {
        596
    } else if surah == 95 {
        597
    } else if surah == 96 {
        597
    } else if surah == 97 {
        598
    } else if surah == 98 {
        598
    } else if surah == 99 {
        599
    } else if surah == 100 {
        599
    } else if surah == 101 {
        600
    } else if surah == 102 {
        600
    } else if surah == 103 {
        601
    } else if surah == 104 {
        601
    } else if surah == 105 {
        601
    } else if surah == 106 {
        602
    } else if surah == 107 {
        602
    } else if surah == 108 {
        602
    } else if surah == 109 {
        603
    } else if surah == 110 {
        603
    } else if surah == 111 {
        603
    } else if surah == 112 {
        604
    } else if surah == 113 {
        604
    } else if surah == 114 {
        604
    } else {
        0
    }
}

/// Pages of the table never decrease and lie in 1..=604.
pub proof fn lemma_surah_start_bounds(s: int)
    requires
        1 <= s <= 114,
    ensures
        1 <= surah_start(s) <= 604,
        s < 114 ==> surah_start(s) <= surah_start(s + 1),
{
}

/// The first page of surah `surah_num`, or `None` for a number outside 1..=114.
pub fn get_surah_start_page(surah_num: u32) -> (r: Option<u32>)
    ensures
        1 <= surah_num <= 114 ==> r == Some(surah_start(surah_num as int) as u32),
        !(1 <= surah_num <= 114) ==> r is None,
{
    if surah_num < 1 || surah_num > 114 {
        return None;
    }
    let p = SURAH_START_PAGES[(surah_num - 1) as usize];
    assert(p == surah_start(surah_num as int));
    Some(p)
}

/// Juz `juz` clamped to 1..=30.
pub open spec fn clamp_juz(juz: int) -> int {
    if juz < 1 {
        1
    } else if juz > 30 {
        30
    } else {
        juz
    }
}

/// First and last page of juz `juz` (clamped to 1..=30): juz 1 is pages
/// 1..=21, juz j in 2..=29 is pages 20(j-1)+2 ..= 20j+1, juz 30 ends on 604.
pub open spec fn juz_page_range(juz: int) -> (int, int) {
    let j = clamp_juz(juz);
    (if j == 1 { 1 } else { (j - 1) * 20 + 2 }, if j == 30 { 604 } else { j * 20 + 1 })
}

/// The page range of a juz; numbers outside 1..=30 are clamped into it.
pub fn get_juz_page_range(juz: u32) -> (r: (u32, u32))
    ensures
        r.0 == juz_page_range(juz as int).0,
        r.1 == juz_page_range(juz as int).1,
        1 <= r.0 <= r.1 <= 604,
{
    let j = if juz < 1 {
        1
    } else if juz > 30 {
        30
    } else {
        juz
    };
    let start = if j == 1 {
        1
    } else {
        (j - 1) * 20 + 2
    };
    let end = if j == 30 {
        604
    } else {
        j * 20 + 1
    };
    (if start < 604 { start } else { 604 }, if end < 604 { end } else { 604 })
}


/// The page a navigation request opens: pages 1 to 604; any other value
/// (0 marks that nothing was requested) opens none.
pub fn requested_quran_page(value: u32) -> (r: Option<u32>)
    ensures
        r == (if 1 <= value <= TOTAL_PAGES {
            Some(value)
        } else {
            None
        }),
{
    if 1 <= value && value <= TOTAL_PAGES {
        Some(value)
    } else {
        None
    }
}

} // verus!
