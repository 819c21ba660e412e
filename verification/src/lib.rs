//! Verified core of a PDF page viewer that copies pages to the clipboard:
//! PDF date parsing, text post-processing for extracted page text, output
//! converter selection, and the decisions of the viewer itself.
pub mod calendar;
pub mod pdf_date;
pub mod text;
pub mod converters;
pub mod viewer;
pub mod clipboard_image;
pub mod session;
