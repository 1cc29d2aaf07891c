use ouisync::progress::Progress;

#[test]
fn format_percent() {
    assert_eq!(
        Progress {
            value: 0,
            total: 10
        }
        .percent()
        .format(0),
        "0%"
    );

    assert_eq!(
        Progress {
            value: 1,
            total: 10
        }
        .percent()
        .format(0),
        "10%"
    );

    assert_eq!(
        Progress {
            value: 2,
            total: 10
        }
        .percent()
        .format(0),
        "20%"
    );

    assert_eq!(
        Progress {
            value: 10,
            total: 10
        }
        .percent()
        .format(0),
        "100%"
    );

    assert_eq!(
        Progress {
            value: 5,
            total: 10
        }
        .percent()
        .format(1),
        "50.0%"
    );

    assert_eq!(
        Progress {
            value: 5,
            total: 10
        }
        .percent()
        .format(2),
        "50.00%"
    );
}

#[test]
fn percent_of_empty_total_is_complete() {
    assert_eq!(Progress { value: 0, total: 0 }.percent().format(0), "100%");
    assert_eq!(Progress { value: 3, total: 0 }.percent().format(1), "100.0%");
}

#[test]
fn percent_rounds_to_nearest() {
    assert_eq!(Progress { value: 1, total: 3 }.percent().format(2), "33.33%");
    assert_eq!(Progress { value: 2, total: 3 }.percent().format(0), "67%");
    assert_eq!(Progress { value: 1, total: 8 }.percent().format(1), "12.5%");
    assert_eq!(Progress { value: 1, total: 200 }.percent().format(0), "0%");
    assert_eq!(Progress { value: 3, total: 200 }.percent().format(0), "2%");
    assert_eq!(Progress { value: 1, total: 1000 }.percent().format(3), "0.100%");
}

#[test]
fn progress_text_and_scaling() {
    let p = Progress { value: 3, total: 12 };
    assert_eq!(p.to_text(), "3/12");
    assert_eq!(p.mul(2), Progress { value: 6, total: 24 });
    assert_eq!(p.div(4), Progress { value: 0, total: 3 });
}
