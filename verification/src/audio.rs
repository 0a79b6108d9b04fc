//! Audio capture: which device a source needs, and the buffer between the
//! device's callback and the reader.

use vstd::prelude::*;

verus! {

/// What can be listened to.
#[derive(Clone, Copy, PartialEq, Eq, Debug, Structural)]
pub enum AudioSource {
    /// Microphone input.
    Microphone,
    /// What the machine plays.
    StereoMix,
}

/// Channels of a capture stream.
pub const CHANNELS: u16 = 2;

/// Samples per second and channel of a capture stream.
pub const SAMPLE_RATE: u32 = 44100;

/// Why audio cannot be captured.
#[derive(Clone, Debug)]
pub enum AudioError {
    NoDevice,
    StreamSetup(String),
    IoError(String),
}

/// Default device that a source is captured from.
#[derive(Clone, Copy, PartialEq, Eq, Debug, Structural)]
pub enum DeviceKind {
    Input,
    Output,
}

/// Microphones are input devices; what the machine plays is taken from the
/// output device.
pub fn device_kind(source: AudioSource) -> (r: DeviceKind)
    ensures
        source is Microphone ==> r is Input,
        source is StereoMix ==> r is Output,
{
    match source {
        AudioSource::Microphone => DeviceKind::Input,
        AudioSource::StereoMix => DeviceKind::Output,
    }
}

/// Picks the device a source needs, given the default ones.
pub fn pick_device<D>(source: AudioSource, input: Option<D>, output: Option<D>) -> (r: Result<
    D,
    AudioError,
>)
    ensures
        ({
            let wanted = if source is Microphone {
                input
            } else {
                output
            };
            &&& wanted matches Some(d) ==> r == Ok::<D, AudioError>(d)
            &&& wanted is None ==> r == Err::<D, AudioError>(AudioError::NoDevice)
        }),
{
    let wanted = match source {
        AudioSource::Microphone => input,
        AudioSource::StereoMix => output,
    };
    match wanted {
        Some(d) => Ok(d),
        None => Err(AudioError::NoDevice),
    }
}

/// Samples that were captured and not read yet.
pub struct SampleBuffer<T: Copy> {
    samples: Vec<T>,
}

impl<T: Copy> View for SampleBuffer<T> {
    type V = Seq<T>;

    closed spec fn view(&self) -> Seq<T> {
        self.samples@
    }
}

impl<T: Copy> SampleBuffer<T> {
    /// Nothing captured yet.
    pub fn new() -> (r: SampleBuffer<T>)
        ensures
            r@ == Seq::<T>::empty(),
    {
        SampleBuffer { samples: Vec::new() }
    }

    /// Adds captured samples behind those that wait.
    pub fn append(&mut self, data: &[T])
        ensures
            final(self)@ == old(self)@ + data@,
    {
        let mut i: usize = 0;
        assert(data@.take(0) =~= Seq::empty());
        assert(self@ =~= old(self)@ + data@.take(0));
        while i < data.len()
            invariant
                i <= data@.len(),
                self@ == old(self)@ + data@.take(i as int),
            decreases data@.len() - i,
        {
            self.samples.push(data[i]);
            assert(self@ =~= old(self)@ + data@.take(i + 1));
            i = i + 1;
        }
        assert(data@.take(i as int) =~= data@);
    }

    /// Takes all samples that wait, `None` if there are none.
    pub fn read(&mut self) -> (r: Option<Vec<T>>)
        ensures
            old(self)@.len() == 0 ==> r is None && final(self)@ == old(self)@,
            old(self)@.len() > 0 ==> r is Some && r->0@ == old(self)@ && final(self)@
                == Seq::<T>::empty(),
    {
        if self.samples.len() == 0 {
            None
        } else {
            let mut taken: Vec<T> = Vec::new();
            std::mem::swap(&mut taken, &mut self.samples);
            Some(taken)
        }
    }
}

} // verus!
