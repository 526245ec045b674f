//! Turns the tag data of a folder of audio files into a release (discs,
//! tracks, album information) and renders it as forum markup.

pub mod albuminfo;
pub mod disc;
pub mod markup;
pub mod reference;
pub mod release;
pub mod scanner;
pub mod sorter;
pub mod tags;
pub mod text;
pub mod track;
