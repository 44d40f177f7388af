pub mod envelope;
pub mod lfo;
pub mod noise;
