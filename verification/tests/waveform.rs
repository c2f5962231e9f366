use thmp5::waveform::{
    downsample_max, largest_point, waveform_step, WaveformAction, WaveformEvent, WaveformPass,
    WAVEFORM_RESOLUTION,
};

fn bits(v: &[f32]) -> Vec<u32> {
    v.iter().map(|x| x.to_bits()).collect()
}

#[test]
fn points_are_the_largest_of_their_buckets() {
    // Five values on two points: three and two.
    let data = bits(&[0.1, 0.5, 0.2, 0.9, 0.3]);
    assert_eq!(downsample_max(&data, 2), bits(&[0.5, 0.9]));
    assert_eq!(downsample_max(&data, 5), data);
    assert_eq!(downsample_max(&data, 7), bits(&[0.1, 0.5, 0.2, 0.9, 0.3, 0.0, 0.0]));
    assert_eq!(downsample_max(&vec![], 3), bits(&[0.0, 0.0, 0.0]));
    assert!(downsample_max(&data, 0).is_empty());
    // What is no number, or negative, is never the largest.
    assert_eq!(downsample_max(&bits(&[f32::NAN, 0.25, -3.0]), 1), bits(&[0.25]));
    assert_eq!(downsample_max(&bits(&[-1.0, -2.0]), 1), bits(&[0.0]));
}

#[test]
fn the_peak_stays() {
    let data: Vec<u32> = (0..1234).map(|i| ((i % 97) as f32).to_bits()).collect();
    let points = downsample_max(&data, WAVEFORM_RESOLUTION);
    assert_eq!(points.len(), 500);
    assert_eq!(largest_point(&points), largest_point(&data));
    assert_eq!(largest_point(&points), 96.0f32.to_bits());
}

#[test]
fn slices_are_a_fiftieth_of_a_second() {
    let mut pass = WaveformPass::new(Some(100), 1);
    assert_eq!(pass.frames_per_slice, 2);
    assert_eq!(pass.frame(2), None);
    assert_eq!(pass.last_slice(), Some(2));
    assert_eq!(pass.frame(2), Some(4));
    assert_eq!(pass.last_slice(), None);
    assert_eq!(pass.slices, 1);
    for _ in 0..20 {
        pass.frame(2);
    }
    assert_eq!(pass.slices, 11);
    assert!(pass.is_enough());
    assert_eq!(WaveformPass::new(None, 1).frames_per_slice, 882);
    assert_eq!(WaveformPass::new(Some(10), 1).frames_per_slice, 1);
}

#[test]
fn nothing_spoils_the_picture() {
    assert_eq!(waveform_step(WaveformEvent::Decoded), WaveformAction::Measure);
    assert_eq!(waveform_step(WaveformEvent::ResetRequired), WaveformAction::Reset);
    assert_eq!(waveform_step(WaveformEvent::DamagedPacket), WaveformAction::Skip);
    assert_eq!(waveform_step(WaveformEvent::OtherTrack), WaveformAction::Skip);
    assert_eq!(waveform_step(WaveformEvent::EndOfFile), WaveformAction::Finish);
    assert_eq!(waveform_step(WaveformEvent::ReadFailed), WaveformAction::Finish);
    assert_eq!(waveform_step(WaveformEvent::DecodeFailed), WaveformAction::Finish);
}
