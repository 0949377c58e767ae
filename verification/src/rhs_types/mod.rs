pub mod regex;
