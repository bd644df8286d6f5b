use wakeword_engine::params::{EMBEDDING_SIZE, HOP_SIZE, N_MELS, TENSOR_LEN, WINDOW_SIZE};
use wakeword_engine::{Action, EngineError, Event, Phase, WakeWordEngine};

const QUIET: u32 = 0;

fn hot() -> u32 {
    0.9f32.to_bits()
}

/// A stand-in for the spectral analysis: every band is the first sample of the window.
fn first_sample_frame(window: Vec<u32>) -> Vec<u32> {
    vec![window[0]; N_MELS]
}

/// A stand-in for the classifier: the score is the first band of the newest frame.
fn newest_band_score(tensor: Vec<u32>) -> Option<Vec<u32>> {
    Some(vec![tensor[TENSOR_LEN - N_MELS]])
}

/// A call, driven by hand.
fn step_through(
    engine: &mut WakeWordEngine,
    audio: &[u32],
    front_end: &dyn Fn(Vec<u32>) -> Vec<u32>,
    classifier: &dyn Fn(Vec<u32>) -> Option<Vec<u32>>,
) -> Result<bool, EngineError> {
    let mut step = engine.begin(audio);
    loop {
        step = match step? {
            Action::Analyze(window) => engine.resume(Event::Frame(front_end(window))),
            Action::Classify(tensor) => match classifier(tensor) {
                Some(values) => engine.resume(Event::Output(values)),
                None => engine.resume(Event::Fault),
            },
            Action::Finished(detected) => return Ok(detected),
        };
    }
}

fn call(engine: &mut WakeWordEngine, audio: &[u32]) -> Result<bool, EngineError> {
    engine.detect(audio, first_sample_frame, newest_band_score)
}

/// `count` samples that are quiet but for the given places.
fn audio_with(count: usize, hot_places: &[usize]) -> Vec<u32> {
    let mut audio = vec![QUIET; count];
    for &place in hot_places {
        audio[place] = hot();
    }
    audio
}

#[test]
fn a_new_engine_is_idle_and_empty() {
    let engine = WakeWordEngine::new();
    assert_eq!(engine.phase(), Phase::Idle);
    assert_eq!(engine.samples().len(), 0);
}

#[test]
fn a_new_engine_has_a_context_of_zeros() {
    let engine = WakeWordEngine::new();
    let tensor = engine.context().materialize();
    assert_eq!(tensor, vec![0u32; EMBEDDING_SIZE * N_MELS]);
    for t in 0..EMBEDDING_SIZE {
        assert_eq!(engine.context().frame(t).bands().len(), N_MELS);
        assert!(engine.context().frame(t).bands().iter().all(|&band| f32::from_bits(band) == 0.0));
    }
}

#[test]
fn audio_short_of_a_window_is_only_buffered() {
    let mut engine = WakeWordEngine::new();
    let audio: Vec<u32> = (0..399).collect();
    assert_eq!(engine.begin(&audio), Ok(Action::Finished(false)));
    assert_eq!(engine.phase(), Phase::Idle);
    assert_eq!(engine.samples().to_vec(), audio);
    assert_eq!(engine.context().materialize(), vec![0u32; TENSOR_LEN]);
}

#[test]
fn an_empty_call_changes_nothing() {
    let mut engine = WakeWordEngine::new();
    assert_eq!(engine.begin(&[1, 2, 3]), Ok(Action::Finished(false)));
    assert_eq!(engine.begin(&[]), Ok(Action::Finished(false)));
    assert_eq!(engine.samples().to_vec(), vec![1, 2, 3]);
}

#[test]
fn a_whole_window_is_handed_out_for_analysis() {
    let mut engine = WakeWordEngine::new();
    let audio: Vec<u32> = (0..450).collect();
    let expected: Vec<u32> = (0..400).collect();
    assert_eq!(engine.begin(&audio), Ok(Action::Analyze(expected)));
    assert_eq!(engine.phase(), Phase::AwaitingFrame);
    assert_eq!(engine.samples().len(), 450);
}

#[test]
fn a_window_spans_audio_of_several_calls() {
    let mut engine = WakeWordEngine::new();
    let early: Vec<u32> = (0..300).collect();
    let late: Vec<u32> = (300..400).collect();
    assert_eq!(engine.begin(&early), Ok(Action::Finished(false)));
    assert_eq!(engine.begin(&late), Ok(Action::Analyze((0..400).collect())));
}

#[test]
fn a_frame_goes_into_the_context_and_the_context_to_the_classifier() {
    let mut engine = WakeWordEngine::new();
    engine.begin(&vec![QUIET; WINDOW_SIZE]).unwrap();
    let bands: Vec<u32> = (1..=N_MELS as u32).collect();
    let action = engine.resume(Event::Frame(bands.clone())).unwrap();
    let mut expected = vec![0u32; TENSOR_LEN - N_MELS];
    expected.extend_from_slice(&bands);
    assert_eq!(action, Action::Classify(expected));
    assert_eq!(engine.phase(), Phase::AwaitingScore);
    assert_eq!(engine.context().frame(EMBEDDING_SIZE - 1).bands(), &bands);
    assert_eq!(engine.samples().len(), WINDOW_SIZE);
}

#[test]
fn an_output_settles_the_window_and_moves_on_by_one_hop() {
    let mut engine = WakeWordEngine::new();
    let audio: Vec<u32> = (0..400).collect();
    engine.begin(&audio).unwrap();
    engine.resume(Event::Frame(vec![QUIET; N_MELS])).unwrap();
    let action = engine.resume(Event::Output(vec![0.7f32.to_bits()]));
    assert_eq!(action, Ok(Action::Finished(true)));
    assert_eq!(engine.phase(), Phase::Idle);
    assert_eq!(engine.samples().to_vec(), (160..400).collect::<Vec<u32>>());
}

#[test]
fn a_low_score_detects_nothing() {
    let mut engine = WakeWordEngine::new();
    engine.begin(&vec![QUIET; WINDOW_SIZE]).unwrap();
    engine.resume(Event::Frame(vec![QUIET; N_MELS])).unwrap();
    let action = engine.resume(Event::Output(vec![0.5f32.to_bits()]));
    assert_eq!(action, Ok(Action::Finished(false)));
}

#[test]
fn an_output_without_values_scores_zero() {
    let mut engine = WakeWordEngine::new();
    engine.begin(&vec![QUIET; WINDOW_SIZE]).unwrap();
    engine.resume(Event::Frame(vec![QUIET; N_MELS])).unwrap();
    assert_eq!(engine.resume(Event::Output(Vec::new())), Ok(Action::Finished(false)));
    assert_eq!(engine.samples().len(), WINDOW_SIZE - HOP_SIZE);
}

#[test]
fn only_the_first_value_of_an_output_counts() {
    let mut engine = WakeWordEngine::new();
    engine.begin(&vec![QUIET; WINDOW_SIZE]).unwrap();
    engine.resume(Event::Frame(vec![QUIET; N_MELS])).unwrap();
    let output = vec![0.1f32.to_bits(), 0.99f32.to_bits()];
    assert_eq!(engine.resume(Event::Output(output)), Ok(Action::Finished(false)));
}

#[test]
fn the_next_window_starts_one_hop_later() {
    let mut engine = WakeWordEngine::new();
    let audio: Vec<u32> = (0..560).collect();
    engine.begin(&audio).unwrap();
    engine.resume(Event::Frame(vec![QUIET; N_MELS])).unwrap();
    let action = engine.resume(Event::Output(vec![QUIET]));
    assert_eq!(action, Ok(Action::Analyze((160..560).collect())));
    assert_eq!(engine.phase(), Phase::AwaitingFrame);
}

#[test]
fn a_call_consumes_every_window_that_the_buffer_holds() {
    for count in [0usize, 1, 399, 400, 401, 559, 560, 561, 719, 720, 1000, 1600, 16000] {
        let mut engine = WakeWordEngine::new();
        assert_eq!(call(&mut engine, &vec![QUIET; count]), Ok(false));
        let windows = if count < WINDOW_SIZE { 0 } else { (count - WINDOW_SIZE) / HOP_SIZE + 1 };
        assert_eq!(engine.samples().len(), count - windows * HOP_SIZE);
        assert!(engine.samples().len() < WINDOW_SIZE);
        assert_eq!(engine.phase(), Phase::Idle);
    }
}

#[test]
fn a_thousand_samples_hold_four_windows() {
    let mut engine = WakeWordEngine::new();
    let audio: Vec<u32> = (0..1000).collect();
    let mut windows: Vec<u32> = Vec::new();
    let mut step = engine.begin(&audio);
    loop {
        step = match step.unwrap() {
            Action::Analyze(window) => {
                windows.push(window[0]);
                engine.resume(Event::Frame(first_sample_frame(window)))
            }
            Action::Classify(_) => engine.resume(Event::Output(vec![QUIET])),
            Action::Finished(detected) => {
                assert!(!detected);
                break;
            }
        };
    }
    assert_eq!(windows, vec![0, 160, 320, 480]);
    assert_eq!(engine.samples().to_vec(), (640..1000).collect::<Vec<u32>>());
}

#[test]
fn one_hot_window_is_enough_for_a_detection() {
    let mut engine = WakeWordEngine::new();
    let audio = audio_with(1000, &[160]);
    assert_eq!(call(&mut engine, &audio), Ok(true));
}

#[test]
fn a_detection_stays_through_later_quiet_windows() {
    let mut engine = WakeWordEngine::new();
    let audio = audio_with(2000, &[0]);
    assert_eq!(call(&mut engine, &audio), Ok(true));
    assert!(engine.samples().len() < WINDOW_SIZE);
}

#[test]
fn a_detection_does_not_last_into_the_next_call() {
    let mut engine = WakeWordEngine::new();
    assert_eq!(call(&mut engine, &audio_with(400, &[0])), Ok(true));
    assert_eq!(call(&mut engine, &vec![QUIET; 400]), Ok(false));
    assert_eq!(call(&mut engine, &[]), Ok(false));
}

#[test]
fn a_hot_sample_off_the_start_of_a_window_goes_unnoticed_by_the_stand_in() {
    let mut engine = WakeWordEngine::new();
    let audio = audio_with(1000, &[161]);
    assert_eq!(call(&mut engine, &audio), Ok(false));
}

#[test]
fn chunks_change_the_answers_but_not_the_state() {
    let audio = audio_with(720, &[0]);

    let mut whole = WakeWordEngine::new();
    assert_eq!(call(&mut whole, &audio), Ok(true));

    let mut split = WakeWordEngine::new();
    assert_eq!(call(&mut split, &audio[..400]), Ok(true));
    assert_eq!(call(&mut split, &audio[400..]), Ok(false));

    assert_eq!(whole.samples().to_vec(), split.samples().to_vec());
    assert_eq!(whole.samples().len(), 240);
    assert_eq!(whole.context().materialize(), split.context().materialize());
    assert_eq!(whole.phase(), split.phase());
}

#[test]
fn any_split_leaves_the_same_state() {
    let audio: Vec<u32> = (0..2000u32).map(|i| (i * 7919) % 1013).collect();
    let mut whole = WakeWordEngine::new();
    call(&mut whole, &audio).unwrap();
    for cut in [0usize, 1, 159, 160, 399, 400, 401, 560, 1000, 1999, 2000] {
        let mut split = WakeWordEngine::new();
        call(&mut split, &audio[..cut]).unwrap();
        call(&mut split, &audio[cut..]).unwrap();
        assert_eq!(whole.samples().to_vec(), split.samples().to_vec());
        assert_eq!(whole.context().materialize(), split.context().materialize());
    }
}

#[test]
fn one_call_detects_when_one_of_its_chunks_would() {
    for place in [0usize, 160, 320, 480, 640] {
        let audio = audio_with(1040, &[place]);
        let mut whole = WakeWordEngine::new();
        let mut split = WakeWordEngine::new();
        let together = call(&mut whole, &audio).unwrap();
        let first = call(&mut split, &audio[..500]).unwrap();
        let second = call(&mut split, &audio[500..]).unwrap();
        assert_eq!(together, first || second);
        assert!(together);
    }
}

#[test]
fn two_new_engines_answer_alike() {
    let audio: Vec<u32> = (0..5000u32).map(|i| if i % 800 == 0 { hot() } else { i }).collect();
    let mut first = WakeWordEngine::new();
    let mut second = WakeWordEngine::new();
    for chunk in audio.chunks(333) {
        assert_eq!(call(&mut first, chunk), call(&mut second, chunk));
        assert_eq!(first.samples().to_vec(), second.samples().to_vec());
        assert_eq!(first.context().materialize(), second.context().materialize());
    }
}

#[test]
fn a_frame_of_the_wrong_size_is_a_shape_mismatch() {
    let mut engine = WakeWordEngine::new();
    let audio: Vec<u32> = (0..400).collect();
    engine.begin(&audio).unwrap();
    let outcome = engine.resume(Event::Frame(vec![QUIET; N_MELS - 1]));
    assert_eq!(outcome, Err(EngineError::ShapeMismatch));
    assert_eq!(engine.phase(), Phase::Idle);
    assert_eq!(engine.samples().to_vec(), audio);
    assert_eq!(engine.context().materialize(), vec![0u32; TENSOR_LEN]);
}

#[test]
fn a_fault_is_an_inference_error() {
    let mut engine = WakeWordEngine::new();
    engine.begin(&vec![QUIET; WINDOW_SIZE]).unwrap();
    engine.resume(Event::Frame(vec![QUIET; N_MELS])).unwrap();
    assert_eq!(engine.resume(Event::Fault), Err(EngineError::Inference));
    assert_eq!(engine.phase(), Phase::Idle);
}

#[test]
fn a_fault_keeps_what_the_call_had_done() {
    let mut engine = WakeWordEngine::new();
    let audio: Vec<u32> = (1..=720).collect();
    let fails_on_second = |tensor: Vec<u32>| {
        if tensor[TENSOR_LEN - N_MELS] == 161 {
            None
        } else {
            Some(vec![QUIET])
        }
    };
    let outcome = engine.detect(&audio, first_sample_frame, fails_on_second);
    assert_eq!(outcome, Err(EngineError::Inference));
    // The first window is consumed; the second has its frame in the context and still
    // lies at the front of the buffer.
    assert_eq!(engine.samples().to_vec(), (161..=720).collect::<Vec<u32>>());
    assert_eq!(engine.context().frame(EMBEDDING_SIZE - 1).bands(), &vec![161u32; N_MELS]);
    assert_eq!(engine.context().frame(EMBEDDING_SIZE - 2).bands(), &vec![1u32; N_MELS]);
    assert_eq!(engine.context().frame(EMBEDDING_SIZE - 3).bands(), &vec![0u32; N_MELS]);
}

#[test]
fn the_call_after_a_fault_takes_the_same_window_up_again() {
    let mut engine = WakeWordEngine::new();
    let audio: Vec<u32> = (1..=400).collect();
    engine.begin(&audio).unwrap();
    engine.resume(Event::Frame(vec![9; N_MELS])).unwrap();
    assert_eq!(engine.resume(Event::Fault), Err(EngineError::Inference));
    assert_eq!(engine.begin(&[]), Ok(Action::Analyze(audio)));
    engine.resume(Event::Frame(vec![9; N_MELS])).unwrap();
    assert_eq!(engine.context().frame(EMBEDDING_SIZE - 1).bands(), &vec![9u32; N_MELS]);
    assert_eq!(engine.context().frame(EMBEDDING_SIZE - 2).bands(), &vec![9u32; N_MELS]);
}

#[test]
fn audio_within_a_call_is_turned_down() {
    let mut engine = WakeWordEngine::new();
    let audio: Vec<u32> = (0..400).collect();
    engine.begin(&audio).unwrap();
    assert_eq!(engine.begin(&[1, 2, 3]), Err(EngineError::Concurrency));
    assert_eq!(engine.phase(), Phase::AwaitingFrame);
    assert_eq!(engine.samples().to_vec(), audio);
    engine.resume(Event::Frame(vec![QUIET; N_MELS])).unwrap();
    assert_eq!(engine.begin(&[1, 2, 3]), Err(EngineError::Concurrency));
    assert_eq!(engine.phase(), Phase::AwaitingScore);
    assert_eq!(engine.samples().to_vec(), audio);
}

#[test]
fn an_idle_engine_turns_every_event_down() {
    let mut engine = WakeWordEngine::new();
    engine.begin(&[1, 2, 3]).unwrap();
    assert_eq!(engine.resume(Event::Frame(vec![QUIET; N_MELS])), Err(EngineError::Concurrency));
    assert_eq!(engine.resume(Event::Output(vec![hot()])), Err(EngineError::Concurrency));
    assert_eq!(engine.resume(Event::Fault), Err(EngineError::Concurrency));
    assert_eq!(engine.phase(), Phase::Idle);
    assert_eq!(engine.samples().to_vec(), vec![1, 2, 3]);
    assert_eq!(engine.context().materialize(), vec![0u32; TENSOR_LEN]);
}

#[test]
fn an_event_out_of_turn_is_turned_down() {
    let mut engine = WakeWordEngine::new();
    engine.begin(&vec![QUIET; WINDOW_SIZE]).unwrap();
    assert_eq!(engine.resume(Event::Output(vec![hot()])), Err(EngineError::Concurrency));
    assert_eq!(engine.phase(), Phase::AwaitingFrame);
    engine.resume(Event::Frame(vec![7; N_MELS])).unwrap();
    assert_eq!(engine.resume(Event::Frame(vec![8; N_MELS])), Err(EngineError::Concurrency));
    assert_eq!(engine.phase(), Phase::AwaitingScore);
    assert_eq!(engine.context().frame(EMBEDDING_SIZE - 1).bands(), &vec![7u32; N_MELS]);
    assert_eq!(engine.resume(Event::Output(vec![hot()])), Ok(Action::Finished(true)));
}

#[test]
fn a_fault_while_a_frame_is_awaited_ends_the_call() {
    let mut engine = WakeWordEngine::new();
    engine.begin(&vec![QUIET; WINDOW_SIZE]).unwrap();
    assert_eq!(engine.resume(Event::Fault), Err(EngineError::Inference));
    assert_eq!(engine.phase(), Phase::Idle);
    assert_eq!(engine.samples().len(), WINDOW_SIZE);
    assert_eq!(engine.context().materialize(), vec![0u32; TENSOR_LEN]);
}

#[test]
fn the_context_always_holds_its_frames() {
    let mut engine = WakeWordEngine::new();
    for round in 0..50usize {
        let audio: Vec<u32> = vec![round as u32; (round * 97) % 700];
        call(&mut engine, &audio).unwrap();
        assert_eq!(engine.context().materialize().len(), EMBEDDING_SIZE * N_MELS);
    }
}

#[test]
fn a_call_of_less_than_a_window_asks_for_nothing() {
    let mut engine = WakeWordEngine::new();
    let never_frame = |_: Vec<u32>| -> Vec<u32> { panic!("no window is whole") };
    let never_score = |_: Vec<u32>| -> Option<Vec<u32>> { panic!("no window is whole") };
    assert_eq!(engine.detect(&vec![hot(); 399], never_frame, never_score), Ok(false));
    assert_eq!(engine.samples().len(), 399);
}

#[test]
fn a_call_hands_out_each_window_and_each_context_once() {
    let mut engine = WakeWordEngine::new();
    let audio: Vec<u32> = (1..=1000).collect();
    let windows = std::cell::RefCell::new(Vec::new());
    let tensors = std::cell::RefCell::new(Vec::new());
    let front_end = |window: Vec<u32>| {
        windows.borrow_mut().push(window.clone());
        vec![window[0]; N_MELS]
    };
    let classifier = |tensor: Vec<u32>| {
        tensors.borrow_mut().push(tensor);
        Some(vec![QUIET])
    };
    assert_eq!(engine.detect(&audio, front_end, classifier), Ok(false));
    let windows = windows.into_inner();
    let tensors = tensors.into_inner();
    assert_eq!(windows.len(), 4);
    assert_eq!(tensors.len(), 4);
    for (k, window) in windows.iter().enumerate() {
        assert_eq!(window, &audio[k * HOP_SIZE..k * HOP_SIZE + WINDOW_SIZE].to_vec());
    }
    for (k, tensor) in tensors.iter().enumerate() {
        assert_eq!(tensor.len(), TENSOR_LEN);
        assert_eq!(tensor[TENSOR_LEN - 1], (k * HOP_SIZE + 1) as u32);
        assert_eq!(tensor[TENSOR_LEN - N_MELS * (k + 1)], 1);
        assert_eq!(tensor[TENSOR_LEN - N_MELS * (k + 1) - 1], 0);
    }
}

#[test]
fn a_whole_call_ends_as_its_steps_do() {
    let audio: Vec<u32> = (0..3000u32).map(|i| if i % 480 == 0 { hot() } else { i }).collect();
    let mut whole = WakeWordEngine::new();
    let mut stepped = WakeWordEngine::new();
    for chunk in audio.chunks(777) {
        let together = whole.detect(chunk, first_sample_frame, newest_band_score);
        let by_hand = step_through(&mut stepped, chunk, &first_sample_frame, &newest_band_score);
        assert_eq!(together, by_hand);
        assert_eq!(whole.samples().to_vec(), stepped.samples().to_vec());
        assert_eq!(whole.context().materialize(), stepped.context().materialize());
        assert_eq!(whole.phase(), stepped.phase());
    }
}

#[test]
fn a_call_with_a_frame_of_the_wrong_size_fails_and_consumes_nothing() {
    let mut engine = WakeWordEngine::new();
    let audio: Vec<u32> = (0..1000).collect();
    let short_frame = |_: Vec<u32>| vec![QUIET; N_MELS + 1];
    assert_eq!(
        engine.detect(&audio, short_frame, newest_band_score),
        Err(EngineError::ShapeMismatch)
    );
    assert_eq!(engine.samples().to_vec(), audio);
    assert_eq!(engine.context().materialize(), vec![0u32; TENSOR_LEN]);
    assert_eq!(engine.phase(), Phase::Idle);
}

#[test]
fn a_call_within_a_call_is_turned_down() {
    let mut engine = WakeWordEngine::new();
    engine.begin(&vec![QUIET; WINDOW_SIZE]).unwrap();
    assert_eq!(
        engine.detect(&[1, 2, 3], first_sample_frame, newest_band_score),
        Err(EngineError::Concurrency)
    );
    assert_eq!(engine.phase(), Phase::AwaitingFrame);
    assert_eq!(engine.samples().len(), WINDOW_SIZE);
}

#[test]
fn a_call_goes_on_after_a_failed_one() {
    let mut engine = WakeWordEngine::new();
    let audio = audio_with(400, &[0]);
    let failing = |_: Vec<u32>| -> Option<Vec<u32>> { None };
    assert_eq!(engine.detect(&audio, first_sample_frame, failing), Err(EngineError::Inference));
    assert_eq!(engine.samples().len(), 400);
    assert_eq!(call(&mut engine, &[]), Ok(true));
    assert_eq!(engine.samples().len(), 240);
}

#[test]
fn however_audio_is_cut_the_state_is_the_same() {
    let audio: Vec<u32> = (0..4000u32).map(|i| if i == 1920 { hot() } else { i % 977 }).collect();
    let mut whole = WakeWordEngine::new();
    let together = call(&mut whole, &audio).unwrap();
    assert!(together);
    for size in [1usize, 7, 160, 161, 399, 400, 1023, 4000] {
        let mut cut = WakeWordEngine::new();
        let mut one_detected = false;
        for chunk in audio.chunks(size) {
            one_detected |= call(&mut cut, chunk).unwrap();
        }
        assert_eq!(one_detected, together);
        assert_eq!(cut.samples().to_vec(), whole.samples().to_vec());
        assert_eq!(cut.context().materialize(), whole.context().materialize());
    }
}
