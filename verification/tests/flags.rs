use std::collections::HashSet;

use mls_playground::flags::{PayloadSizeSource, PayloadSizes, PlateauOrder, ProfiledFailurePolicy, StepSize};
use mls_playground::plateau::{
    build_plateau_sequence, build_plateau_sequence_for_order, build_plateau_sequence_for_step_size,
};
use rand::rngs::StdRng;
use rand::SeedableRng;

#[test]
fn fixed_and_range_flag_values_parse() {
    assert_eq!("8".parse::<StepSize>(), Ok(StepSize::Fixed(8)));
    assert_eq!("ascending".parse::<PlateauOrder>(), Ok(PlateauOrder::Ascending));
    assert_eq!("asc".parse::<PlateauOrder>(), Ok(PlateauOrder::Ascending));
    assert_eq!("[2,16]".parse::<StepSize>(), Ok(StepSize::UniformRange { min: 2, max: 16 }));
    assert_eq!("32,256".parse::<PayloadSizes>(), Ok(PayloadSizes::Fixed(vec![32, 256])));
    assert_eq!(
        "[32,4096]".parse::<PayloadSizes>(),
        Ok(PayloadSizes::UniformRange { min: 32, max: 4096 })
    );
    assert!("[0,16]".parse::<StepSize>().is_err());
    assert!("[4096,32]".parse::<PayloadSizes>().is_err());
}

#[test]
fn range_steps_and_payloads_sample_independently() {
    let mut rng = StdRng::seed_from_u64(7);
    let step_size = StepSize::UniformRange { min: 2, max: 16 };
    let step_samples = (0..32).map(|_| step_size.sample(&mut rng)).collect::<Vec<_>>();
    assert!(step_samples.iter().all(|sample| (2..=16).contains(sample)));
    assert!(step_samples.iter().collect::<HashSet<_>>().len() > 1);

    let fixed_sequence =
        build_plateau_sequence_for_step_size(2, 32, &StepSize::Fixed(8), 1, &mut rng);
    assert_eq!(fixed_sequence, build_plateau_sequence(2, 32, 8, 1));

    let sequence = build_plateau_sequence_for_step_size(2, 32, &step_size, 2, &mut rng);
    assert_eq!(sequence.first(), Some(&2));
    assert_eq!(sequence.last(), Some(&2));
    assert!(sequence.contains(&32));
    assert!(sequence.windows(2).all(|pair| {
        let delta = pair[0].abs_diff(pair[1]);
        delta > 0 && delta <= 16
    }));

    let payload_source = PayloadSizeSource::UniformRange { min: 32, max: 4096 };
    let payload_samples = (0..32).map(|_| payload_source.sample(&mut rng)).collect::<Vec<_>>();
    assert!(payload_samples.iter().all(|sample| (32..=4096).contains(sample)));
    assert!(payload_samples.iter().collect::<HashSet<_>>().len() > 1);
}

#[test]
fn ascending_plateaus_only_grow() {
    let mut rng = StdRng::seed_from_u64(19);
    let sequence = build_plateau_sequence_for_order(
        2,
        16,
        &StepSize::Fixed(4),
        3,
        PlateauOrder::Ascending,
        &mut rng,
    );

    assert_eq!(sequence, vec![2, 6, 10, 14, 16]);
    assert!(sequence.windows(2).all(|pair| pair[0] < pair[1]));
}

#[test]
fn randomized_plateaus_are_seeded_and_not_a_monotonic_staircase() {
    let sequence_for = |seed| {
        let mut rng = StdRng::seed_from_u64(seed);
        build_plateau_sequence_for_order(
            2,
            32,
            &StepSize::Fixed(5),
            2,
            PlateauOrder::Randomized,
            &mut rng,
        )
    };

    let first = sequence_for(17);
    assert_eq!(first, sequence_for(17));
    assert_ne!(first, sequence_for(18));
    assert!(first.contains(&2));
    assert!(first.contains(&32));
    for trip in first.chunks(7) {
        let mut levels = trip.to_vec();
        levels.sort_unstable();
        assert_eq!(levels, vec![2, 7, 12, 17, 22, 27, 32]);
    }
    assert_eq!(first.len(), 14);
    assert!(first.windows(3).any(|window| {
        !((window[0] < window[1] && window[1] < window[2])
            || (window[0] > window[1] && window[1] > window[2]))
    }));
}

#[test]
fn staircase_goes_up_and_down_again() {
    assert_eq!(build_plateau_sequence(2, 10, 4, 1), vec![2, 6, 10, 6, 2]);
    assert_eq!(build_plateau_sequence(2, 9, 4, 1), vec![2, 6, 9, 6, 2]);
    assert_eq!(build_plateau_sequence(2, 6, 4, 2), vec![2, 6, 2, 6, 2]);
    assert_eq!(build_plateau_sequence(4, 4, 3, 2), vec![4]);
}

#[test]
fn refused_flags_say_why() {
    assert_eq!(
        "".parse::<StepSize>(),
        Err("--step-size contains an empty integer".to_string())
    );
    assert_eq!(
        "x".parse::<StepSize>(),
        Err("--step-size expected an integer, got 'x'".to_string())
    );
    assert_eq!(
        "up".parse::<PlateauOrder>(),
        Err(
            "--plateau-order expected 'staircase', 'ascending', or 'randomized', got 'up'"
                .to_string()
        )
    );
    assert_eq!(
        "go".parse::<ProfiledFailurePolicy>(),
        Err(
            "invalid profiled failure policy 'go'; expected stop-on-profiled-failure or remove-and-continue"
                .to_string()
        )
    );
}

#[test]
fn flags_are_shown_as_they_are_typed() {
    assert_eq!(StepSize::Fixed(8).text(), "8");
    assert_eq!(StepSize::UniformRange { min: 2, max: 16 }.text(), "[2,16]");
    assert_eq!(PayloadSizes::Fixed(vec![32, 256]).text(), "32,256");
    assert_eq!(PlateauOrder::Randomized.text(), "randomized");
}

#[test]
fn written_flags_are_read_back() {
    for step in [StepSize::Fixed(7), StepSize::UniformRange { min: 2, max: 15 }] {
        assert_eq!(step.text().parse::<StepSize>(), StepSize::parse(&step.text()));
        assert_eq!(StepSize::parse(&step.text()), Ok(step));
    }
    for sizes in [
        PayloadSizes::Fixed(vec![0, 32, 1024]),
        PayloadSizes::UniformRange { min: 0, max: 64 },
    ] {
        assert_eq!(sizes.text().parse::<PayloadSizes>(), PayloadSizes::parse(&sizes.text()));
        assert_eq!(PayloadSizes::parse(&sizes.text()), Ok(sizes));
    }
    for order in [PlateauOrder::Staircase, PlateauOrder::Ascending, PlateauOrder::Randomized] {
        assert_eq!(PlateauOrder::parse(&order.text()), Ok(order));
    }
}
