use signal_pipeline::error::PipelineError;
use signal_pipeline::hi_pass_filter::{high_pass, HiPassFilter};
use signal_pipeline::lo_pass_filter::{low_pass, FilterState, LoPassFilter, SignalFilter};
use signal_pipeline::tee::{duplicate, duplicate_in_turns, pull};
use std::cell::RefCell;

fn weighted_average(one: i32, other: i32, ratio: f64) -> i32 {
    ((one as f64) * ratio + (other as f64) * (1.0 - ratio)) as i32
}

fn average(sample: i32, previous: i32, width: i32) -> i32 {
    weighted_average(sample, previous, 0.1f64.powi(width))
}

fn sample_itself(sample: i32, _previous: i32, _width: i32) -> i32 {
    sample
}

fn previous_itself(_sample: i32, previous: i32, _width: i32) -> i32 {
    previous
}

fn drain<T, A, F>(filter: &mut F) -> Vec<i32>
where
    T: Iterator<Item = i32>,
    A: Fn(i32, i32, i32) -> i32,
    F: SignalFilter<T, A>,
{
    let mut out = Vec::new();
    while let Some(sample) = filter.next() {
        out.push(sample);
    }
    out
}

#[test]
fn filter_state_hands_sample_previous_and_width_to_the_averager() {
    let calls = RefCell::new(Vec::new());
    let recorder = |sample: i32, previous: i32, width: i32| {
        calls.borrow_mut().push((sample, previous, width));
        sample - previous + width
    };
    let mut state = FilterState::new(7, &recorder).ok().unwrap();
    assert_eq!(state.advance(100), 107);
    assert_eq!(state.advance(50), -50);
    assert_eq!(state.advance(-3), 54);
    assert_eq!(*calls.borrow(), vec![(100, 0, 7), (50, 107, 7), (-3, -50, 7)]);
}

#[test]
fn filter_state_starts_at_zero_and_keeps_its_last_output() {
    let mut state = FilterState::new(1, average).ok().unwrap();
    assert_eq!(state.advance(100), 10);
    assert_eq!(state.advance(100), 19);
    assert_eq!(state.advance(100), 27);
    assert_eq!(state.advance(-1000), -75);
}

#[test]
fn filter_state_refuses_a_width_that_is_not_positive() {
    assert!(matches!(FilterState::new(0, average), Err(PipelineError::Config)));
    assert!(matches!(FilterState::new(-1, average), Err(PipelineError::Config)));
    assert!(matches!(FilterState::new(i32::MIN, average), Err(PipelineError::Config)));
    assert!(FilterState::new(1, average).is_ok());
    assert!(FilterState::new(i32::MAX, sample_itself).is_ok());
}

#[test]
fn low_pass_averages_in_floating_point_and_truncates() {
    assert_eq!(low_pass(vec![-70, 53], 1, average), Ok(vec![-7, 0]));
    assert_eq!(low_pass(vec![100, 100, 100], 1, average), Ok(vec![10, 19, 27]));
    assert_eq!(
        low_pass(vec![1000, 1000, 1000, 1000, -1000, -1000, 0, 0], 1, average),
        Ok(vec![100, 190, 271, 343, 208, 87, 78, 70])
    );
    assert_eq!(
        low_pass(vec![12345, -6789, 22222, 0, -5], 2, average),
        Ok(vec![123, 53, 274, 271, 268])
    );
}

#[test]
fn low_pass_hands_each_output_on_as_the_next_previous() {
    let calls = RefCell::new(Vec::new());
    let recorder = |sample: i32, previous: i32, width: i32| {
        calls.borrow_mut().push((sample, previous, width));
        sample / 2 + previous
    };
    assert_eq!(low_pass(vec![10, 20, 30, -8], 3, &recorder), Ok(vec![5, 15, 30, 26]));
    assert_eq!(
        *calls.borrow(),
        vec![(10, 0, 3), (20, 5, 3), (30, 15, 3), (-8, 30, 3)]
    );
}

#[test]
fn low_pass_returns_what_the_averager_returns() {
    let samples = vec![3, -1, 4, -1, 5, -9, 2, 6];
    assert_eq!(low_pass(samples.clone(), 1, sample_itself), Ok(samples.clone()));
    assert_eq!(low_pass(samples.clone(), 1, previous_itself), Ok(vec![0; 8]));
    assert_eq!(high_pass(samples.clone(), 1, sample_itself), Ok(vec![0; 8]));
    assert_eq!(high_pass(samples.clone(), 1, previous_itself), Ok(samples));
}

#[test]
fn low_pass_keeps_the_length() {
    for len in [0usize, 1, 2, 17, 1000] {
        let samples: Vec<i32> = (0..len as i32).map(|i| (i * 7919) % 2001 - 1000).collect();
        for width in [1, 2, 3, 12] {
            assert_eq!(low_pass(samples.clone(), width, average).unwrap().len(), len);
            assert_eq!(high_pass(samples.clone(), width, average).unwrap().len(), len);
        }
    }
}

#[test]
fn low_pass_of_nothing_is_nothing() {
    assert_eq!(low_pass(Vec::new(), 1, average), Ok(Vec::new()));
    assert_eq!(high_pass(Vec::new(), 1, average), Ok(Vec::new()));
}

#[test]
fn low_pass_refuses_a_width_that_is_not_positive() {
    assert_eq!(low_pass(vec![1, 2, 3], 0, average), Err(PipelineError::Config));
    assert_eq!(low_pass(vec![1, 2, 3], -4, average), Err(PipelineError::Config));
    assert_eq!(low_pass(Vec::new(), 0, average), Err(PipelineError::Config));
    assert_eq!(high_pass(vec![1, 2, 3], 0, average), Err(PipelineError::Config));
    assert_eq!(high_pass(vec![1, 2, 3], -4, average), Err(PipelineError::Config));
}

#[test]
fn a_refused_width_never_reaches_the_averager() {
    let calls = RefCell::new(0);
    let counter = |sample: i32, _previous: i32, _width: i32| {
        *calls.borrow_mut() += 1;
        sample
    };
    assert_eq!(low_pass(vec![1, 2, 3], 0, &counter), Err(PipelineError::Config));
    assert_eq!(high_pass(vec![1, 2, 3], -1, &counter), Err(PipelineError::Config));
    assert_eq!(*calls.borrow(), 0);
}

#[test]
fn high_pass_is_what_the_low_pass_leaves() {
    assert_eq!(high_pass(vec![-70, 53], 1, average), Ok(vec![-63, 53]));
    assert_eq!(high_pass(vec![100, 100, 100], 1, average), Ok(vec![90, 81, 73]));
    assert_eq!(
        high_pass(vec![1000, 1000, 1000, 1000, -1000, -1000, 0, 0], 1, average),
        Ok(vec![900, 810, 729, 657, -1208, -1087, -78, -70])
    );
    assert_eq!(
        high_pass(vec![12345, -6789, 22222, 0, -5], 2, average),
        Ok(vec![12222, -6842, 21948, -271, -273])
    );
}

#[test]
fn low_and_high_pass_add_up_to_the_input() {
    let samples: Vec<i32> = (0..500)
        .map(|i: i32| ((i * 104_729) % 16_777_215) - 8_388_607)
        .collect();
    for width in [1, 2, 3] {
        let low = low_pass(samples.clone(), width, average).unwrap();
        let high = high_pass(samples.clone(), width, average).unwrap();
        for i in 0..samples.len() {
            assert_eq!(low[i] + high[i], samples[i]);
        }
    }
}

#[test]
fn low_and_high_pass_at_the_bounds_of_the_domain() {
    let samples = vec![8_388_607, -8_388_607, 8_388_607];
    assert_eq!(
        low_pass(samples.clone(), 1, average),
        Ok(vec![838_860, -83_886, 763_363])
    );
    assert_eq!(
        high_pass(samples, 1, average),
        Ok(vec![7_549_747, -8_304_721, 7_625_244])
    );
}

#[test]
fn high_pass_clips_a_difference_that_is_no_sample() {
    let mut samples = vec![i32::MAX; 400];
    samples.push(i32::MIN);
    let low = low_pass(samples.clone(), 1, average).unwrap();
    let high = high_pass(samples, 1, average).unwrap();
    assert_eq!(low[399], i32::MAX - 9);
    assert_eq!(high[399], 9);
    assert_eq!(low[400], 1_717_986_909);
    assert_eq!(high[400], i32::MIN);
}

#[test]
fn high_pass_clips_at_both_bounds() {
    let highest = |_sample: i32, _previous: i32, _width: i32| i32::MAX;
    let lowest = |_sample: i32, _previous: i32, _width: i32| i32::MIN;
    assert_eq!(
        high_pass(vec![i32::MIN, -2, -1, 0, i32::MAX], 1, highest),
        Ok(vec![i32::MIN, i32::MIN, i32::MIN, -i32::MAX, 0])
    );
    assert_eq!(
        high_pass(vec![i32::MAX, 0, -1, -2, i32::MIN], 1, lowest),
        Ok(vec![i32::MAX, i32::MAX, i32::MAX, i32::MAX - 1, 0])
    );
}

#[test]
fn a_wider_filter_responds_less_to_a_step() {
    assert_eq!(
        low_pass(vec![1000; 6], 1, average),
        Ok(vec![100, 190, 271, 343, 408, 467])
    );
    assert_eq!(low_pass(vec![1; 6], 1, average), Ok(vec![0; 6]));
    for height in [1, 9, 10, 1000, 8_388_607, i32::MAX, -1, -1000, i32::MIN] {
        let mut narrower = low_pass(vec![height; 50], 1, average).unwrap();
        for width in 2..7 {
            let wider = low_pass(vec![height; 50], width, average).unwrap();
            for k in 0..50 {
                if height >= 0 {
                    assert!(0 <= wider[k] && wider[k] <= narrower[k] && narrower[k] <= height);
                } else {
                    assert!(height <= narrower[k] && narrower[k] <= wider[k] && wider[k] <= 0);
                }
            }
            narrower = wider;
        }
    }
}

#[test]
fn lo_pass_filter_hands_out_one_output_for_each_pull() {
    let mut filter = LoPassFilter::new(vec![100, 100, 100].into_iter(), 1, average)
        .ok()
        .unwrap();
    assert_eq!(filter.next(), Some(10));
    assert_eq!(filter.next(), Some(19));
    assert_eq!(filter.next(), Some(27));
    assert_eq!(filter.next(), None);
    assert_eq!(filter.next(), None);
}

#[test]
fn lo_pass_filter_pulls_no_more_than_it_hands_out() {
    let mut source = vec![100, 100, 100, 100].into_iter();
    {
        let mut filter = LoPassFilter::new(source.by_ref(), 1, average).ok().unwrap();
        assert_eq!(filter.next(), Some(10));
        assert_eq!(filter.next(), Some(19));
    }
    assert_eq!(source.len(), 2);
}

#[test]
fn lo_pass_filter_calls_the_averager_once_for_each_sample() {
    let calls = RefCell::new(0);
    let counter = |sample: i32, _previous: i32, _width: i32| {
        *calls.borrow_mut() += 1;
        sample
    };
    let mut filter = LoPassFilter::new(vec![4, 5, 6].into_iter(), 1, &counter).ok().unwrap();
    assert_eq!(*calls.borrow(), 0);
    assert_eq!(filter.next(), Some(4));
    assert_eq!(*calls.borrow(), 1);
    assert_eq!(drain(&mut filter), vec![5, 6]);
    assert_eq!(*calls.borrow(), 3);
    assert_eq!(filter.next(), None);
    assert_eq!(*calls.borrow(), 3);
}

#[test]
fn lo_pass_filter_takes_up_to_a_count() {
    let mut filter = LoPassFilter::new(vec![1000; 6].into_iter(), 1, average).ok().unwrap();
    assert_eq!(filter.take(0), Vec::<i32>::new());
    assert_eq!(filter.take(2), vec![100, 190]);
    assert_eq!(filter.take(3), vec![271, 343, 408]);
    assert_eq!(filter.take(10), vec![467]);
    assert_eq!(filter.take(10), Vec::<i32>::new());
    assert_eq!(filter.next(), None);
}

#[test]
fn lo_pass_filter_truncates_an_endless_stream_by_the_count() {
    let mut filter = LoPassFilter::new(std::iter::repeat(1000), 1, average).ok().unwrap();
    assert_eq!(filter.take(6), vec![100, 190, 271, 343, 408, 467]);
    assert_eq!(filter.next(), Some(520));
}

#[test]
fn lo_pass_filter_refuses_a_width_that_is_not_positive() {
    assert!(matches!(
        LoPassFilter::new(vec![1, 2].into_iter(), 0, average),
        Err(PipelineError::Config)
    ));
    assert!(matches!(
        LoPassFilter::new(vec![1, 2].into_iter(), -3, average),
        Err(PipelineError::Config)
    ));
    assert!(LoPassFilter::new(Vec::new().into_iter(), 1, average).is_ok());
}

#[test]
fn lo_pass_filter_exposes_its_stream() {
    let mut filter = LoPassFilter::new(vec![100, 100, 100].into_iter(), 1, average)
        .ok()
        .unwrap();
    assert_eq!(filter.next(), Some(10));
    assert_eq!(filter.input.next(), Some(100));
    assert_eq!(filter.next(), Some(19));
    assert_eq!(filter.next(), None);
}

#[test]
fn hi_pass_filter_hands_out_one_output_for_each_pull() {
    let mut filter = HiPassFilter::new(vec![100, 100, 100].into_iter(), 1, average)
        .ok()
        .unwrap();
    assert_eq!(filter.next(), Some(90));
    assert_eq!(filter.next(), Some(81));
    assert_eq!(filter.next(), Some(73));
    assert_eq!(filter.next(), None);
    assert_eq!(filter.next(), None);
}

#[test]
fn hi_pass_filter_averages_the_sample_that_it_hands_through() {
    let calls = RefCell::new(Vec::new());
    let recorder = |sample: i32, previous: i32, width: i32| {
        calls.borrow_mut().push((sample, previous, width));
        sample / 2 + previous
    };
    let mut filter = HiPassFilter::new(vec![10, 20, 30, -8].into_iter(), 4, &recorder)
        .ok()
        .unwrap();
    assert_eq!(drain(&mut filter), vec![5, 5, 0, -34]);
    assert_eq!(
        *calls.borrow(),
        vec![(10, 0, 4), (20, 5, 4), (30, 15, 4), (-8, 30, 4)]
    );
}

#[test]
fn hi_pass_filter_takes_up_to_a_count() {
    let samples = vec![1000, 1000, 1000, 1000, -1000, -1000, 0, 0];
    let mut filter = HiPassFilter::new(samples.into_iter(), 1, average).ok().unwrap();
    assert_eq!(filter.take(3), vec![900, 810, 729]);
    assert_eq!(filter.next(), Some(657));
    assert_eq!(filter.take(100), vec![-1208, -1087, -78, -70]);
    assert_eq!(filter.take(100), Vec::<i32>::new());
}

#[test]
fn hi_pass_filter_refuses_a_width_that_is_not_positive() {
    assert!(matches!(
        HiPassFilter::new(vec![1, 2].into_iter(), 0, average),
        Err(PipelineError::Config)
    ));
    assert!(matches!(
        HiPassFilter::new(vec![1, 2].into_iter(), i32::MIN, average),
        Err(PipelineError::Config)
    ));
}

#[test]
fn filters_agree_with_the_whole_buffer_functions() {
    let samples: Vec<i32> = (0..200).map(|i: i32| (i * 7919) % 2001 - 1000).collect();
    let mut low = LoPassFilter::new(samples.clone().into_iter(), 2, average).ok().unwrap();
    let mut high = HiPassFilter::new(samples.clone().into_iter(), 2, average).ok().unwrap();
    assert_eq!(Ok(drain(&mut low)), low_pass(samples.clone(), 2, average));
    assert_eq!(Ok(drain(&mut high)), high_pass(samples, 2, average));
}

#[test]
fn duplicates_yield_the_stream_whatever_the_order_of_the_pulls() {
    let samples: Vec<i32> = (0..64).map(|i: i32| i * i - 100).collect();
    let orders: [&[bool]; 5] = [
        &[],
        &[true; 64],
        &[false; 64],
        &[true, false],
        &[true, true, true, false, true, false, false, false, false, true],
    ];
    for order in orders.iter() {
        let (mut one, mut two) = duplicate(samples.clone().into_iter());
        let mut from_one = Vec::new();
        let mut from_two = Vec::new();
        for turn in order.iter().cycle().take(order.len() * 9) {
            if *turn {
                from_one.extend(pull(&mut one));
            } else {
                from_two.extend(pull(&mut two));
            }
        }
        while let Some(sample) = pull(&mut one) {
            from_one.push(sample);
        }
        while let Some(sample) = pull(&mut two) {
            from_two.push(sample);
        }
        assert_eq!(from_one, samples);
        assert_eq!(from_two, samples);
        assert_eq!(pull(&mut one), None);
        assert_eq!(pull(&mut two), None);
    }
}

#[test]
fn duplicate_in_turns_hands_out_the_buffer_twice() {
    let samples: Vec<i32> = (0..20).map(|i: i32| 3 * i - 7).collect();
    let schedules: [Vec<bool>; 5] = [
        Vec::new(),
        vec![true; 50],
        vec![false; 50],
        vec![true, false, false, true, true, true, false],
        (0..40).map(|i| i % 3 == 0).collect(),
    ];
    for turns in schedules.iter() {
        let (one, two) = duplicate_in_turns(samples.clone(), turns);
        assert_eq!(one, samples);
        assert_eq!(two, samples);
    }
    assert_eq!(
        duplicate_in_turns(Vec::new(), &vec![true, false]),
        (Vec::new(), Vec::new())
    );
}

#[test]
fn one_duplicate_may_stay_behind() {
    let samples = vec![5, 6, 7, 8];
    let (mut one, mut two) = duplicate(samples.clone().into_iter());
    assert_eq!(pull(&mut one), Some(5));
    assert_eq!(pull(&mut one), Some(6));
    assert_eq!(pull(&mut one), Some(7));
    assert_eq!(pull(&mut one), Some(8));
    assert_eq!(pull(&mut one), None);
    assert_eq!(two.by_ref().collect::<Vec<i32>>(), samples);
    assert_eq!(pull(&mut two), None);
}

#[test]
fn duplicates_of_an_empty_stream_are_empty() {
    let (mut one, mut two) = duplicate(Vec::<i32>::new().into_iter());
    assert_eq!(pull(&mut two), None);
    assert_eq!(pull(&mut one), None);
}

#[test]
fn pull_takes_the_first_sample_that_is_left() {
    let mut stream = vec![3, 1, 2].into_iter();
    assert_eq!(pull(&mut stream), Some(3));
    assert_eq!(pull(&mut stream), Some(1));
    assert_eq!(pull(&mut stream), Some(2));
    assert_eq!(pull(&mut stream), None);
}
