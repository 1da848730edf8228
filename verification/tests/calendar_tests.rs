use anyflipdl::calendar::{civil_from_days, date_string};
use anyflipdl::probe::{probe_next, probe_start, ProbeStep};

#[test]
fn civil_dates_of_known_days() {
    assert_eq!(civil_from_days(0), (1970, 1, 1));
    assert_eq!(civil_from_days(59), (1970, 3, 1));
    assert_eq!(civil_from_days(11016), (2000, 2, 29));
    assert_eq!(civil_from_days(19723), (2024, 1, 1));
    assert_eq!(civil_from_days(-1), (1969, 12, 31));
}

#[test]
fn date_strings() {
    assert_eq!(date_string(0), "1970-01-01");
    assert_eq!(date_string(1_704_067_199), "2023-12-31");
    assert_eq!(date_string(1_709_164_800), "2024-02-29");
}

fn probe(pages: u32) -> Result<u32, String> {
    let mut step = probe_start();
    let mut asked = 0;
    loop {
        match step {
            ProbeStep::Ask { page, state } => {
                asked += 1;
                assert!(asked < 100);
                step = probe_next(state, page <= pages);
            }
            ProbeStep::Found(n) => return Ok(n),
            ProbeStep::Failed(e) => return Err(e.to_string()),
        }
    }
}

#[test]
fn probing_finds_the_page_count() {
    for n in [1u32, 2, 3, 7, 8, 9, 100, 308, 1023, 1024, 5000, 8191, 8192, 9000, 9999, 10000] {
        assert_eq!(probe(n), Ok(n));
    }
    assert_eq!(probe(0), Err("Metadata error: No pages found for document".to_string()));
    assert_eq!(probe(10001), Err("Metadata error: Document has more than 10000 pages".to_string()));
    assert_eq!(probe(20000), Err("Metadata error: Document has more than 10000 pages".to_string()));
}

#[test]
fn every_date_is_a_calendar_date() {
    for days in [-800_000i64, -1, 0, 31, 59, 365, 10_000, 100_000, 2_932_896] {
        let (_, m, d) = civil_from_days(days);
        assert!((1..=12).contains(&m));
        assert!((1..=31).contains(&d));
    }
    assert_eq!(civil_from_days(2_932_896), (9999, 12, 31));
}
