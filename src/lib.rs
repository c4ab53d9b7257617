// Synthesis of mono audio from musical descriptions: sample buffers and
// their mixing, tones and note names, generator clocks and noise sources,
// spectrum layout, and a rhythm sequencer that places hits in time.
pub mod audio;
pub mod filters;
pub mod interval;
pub mod note_name;
pub mod rhythm;
pub mod spectrum;
pub mod time;
pub mod tone;
pub mod waves;
