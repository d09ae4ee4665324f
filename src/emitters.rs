pub mod pcre2;
