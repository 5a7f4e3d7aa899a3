pub mod url;
