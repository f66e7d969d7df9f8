use elastic_stream::model::range_metadata::RangeMetadata as Range;
use elastic_stream::model::stream::{Stream, StreamError};

#[test]
fn test_sort_stream() {
    // Construct a stream with 3 ranges, and sort it.
    let mut stream: Stream = Stream::default();
    stream.push(Range::new(0, 1, 0, 0, None));
    stream.push(Range::new(0, 0, 0, 0, None));
    stream.push(Range::new(0, 2, 0, 0, None));
    stream.sort();

    // Check the ranges are sorted by index.
    assert_eq!(stream.ranges[0].index(), 0);
    assert_eq!(stream.ranges[1].index(), 1);
    assert_eq!(stream.ranges[2].index(), 2);
}

#[test]
fn test_seal_stream() -> Result<(), StreamError> {
    // Construct a stream with 3 ranges, and seal the last range.
    let mut stream: Stream = Stream::default();
    stream.push(Range::new(0, 0, 0, 0, None));
    stream.push(Range::new(0, 1, 0, 10, Some(20)));
    stream.push(Range::new(0, 2, 0, 20, None));
    stream.seal(0, 2)?;

    // Check the last range is sealed.
    assert_eq!(stream.ranges.last().unwrap().is_sealed(), true);
    Ok(())
}

#[test]
fn test_query_from_stream() {
    // Construct a complete stream through a iterator.
    let mut stream: Stream = Stream::default();

    (0..10)
        .map(|i| {
            let mut sr = Range::new(0, i, 0, i as u64 * 10, None);
            // Seal the range if it's not the last one.
            if i != 9 {
                let _ = sr.seal((i as u64 + 1) * 10);
            }
            sr
        })
        .for_each(|range| stream.push(range));

    // Test the range_of method.
    assert_eq!(stream.range_of(0).unwrap().index(), 0);
    assert_eq!(stream.range_of(5).unwrap().index(), 0);
    assert_eq!(stream.range_of(10).unwrap().index(), 1);
    assert_eq!(stream.range_of(15).unwrap().index(), 1);
    assert_eq!(stream.range_of(20).unwrap().index(), 2);

    // Test the range method
    assert_eq!(stream.range(5).unwrap().start(), 50);
    assert_eq!(stream.range(5).unwrap().is_sealed(), true);
}

#[test]
fn sealing_reports_each_refusal() {
    let mut stream = Stream::default();
    assert_eq!(Err(StreamError::SealWrongNode), stream.seal(5, 0));
    stream.push(Range::new(1, 0, 0, 0, None));
    assert_eq!(
        Err(StreamError::RangeIndexMismatch { target: 3, actual: 0 }),
        stream.seal(5, 3)
    );
    assert!(stream.is_mut());
    assert_eq!(Ok(5), stream.seal(5, 0));
    assert_eq!(Some(5), stream.last().unwrap().end());
    assert!(!stream.is_mut());
    assert_eq!(Err(StreamError::AlreadySealed), stream.seal(6, 0));
    assert_eq!(Some(5), stream.ranges[0].end());
}

#[test]
fn refresh_appends_only_new_indexes() {
    let mut stream = Stream::default();
    stream.push(Range::new(1, 0, 0, 0, Some(10)));
    stream.push(Range::new(1, 1, 0, 10, None));
    stream.refresh(vec![
        Range::new(1, 1, 0, 10, Some(30)),
        Range::new(1, 2, 0, 30, None),
        Range::new(1, 2, 1, 30, None),
    ]);
    assert_eq!(4, stream.ranges.len());
    assert_eq!(None, stream.ranges[1].end());
    assert_eq!(2, stream.ranges[2].index());
    assert_eq!(0, stream.ranges[2].epoch());
    assert_eq!(1, stream.ranges[3].epoch());
}

#[test]
fn lookups_miss_cleanly() {
    let mut stream = Stream::default();
    assert!(stream.last().is_none());
    assert!(!stream.is_mut());
    stream.push(Range::new(1, 4, 0, 100, Some(200)));
    assert!(stream.range(3).is_none());
    assert!(stream.range_of(99).is_none());
    assert!(stream.range_of(200).is_none());
    assert_eq!(4, stream.range_of(199).unwrap().index());
}

#[test]
fn sorting_keeps_the_order_of_equal_indexes() {
    let mut stream = Stream::default();
    stream.push(Range::new(1, 2, 0, 0, None));
    stream.push(Range::new(9, 1, 0, 0, None));
    stream.push(Range::new(8, 1, 0, 0, None));
    stream.push(Range::new(7, 0, 0, 0, None));
    stream.sort();
    let order: Vec<(i32, i64)> = stream.ranges.iter().map(|r| (r.index, r.stream_id)).collect();
    assert_eq!(vec![(0, 7), (1, 9), (1, 8), (2, 1)], order);
}
