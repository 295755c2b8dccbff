//! Validators for legacy East-Asian multi-byte encodings (GB2312, GB18030,
//! EUC-KR, EUC-JP). Each encoding has several independent strategies (a
//! byte-range scan, a bitmap lookup, a windowed bulk validator and, for
//! GB18030, a state machine) whose verdicts are proved equal to one
//! declarative definition of validity built on the encoding's range table.
//!
//! - `tools`: range tables and bitmaps, the shared two-byte walks, and the
//!   verdict of a general decoding library.
//! - `gb2312`, `gb18030`, `euc_kr`, `euc_jp`: one module per encoding.
//! - `laws`: properties shared by every strategy of every encoding.

pub mod euc_jp;
pub mod euc_kr;
pub mod gb18030;
pub mod gb2312;
pub mod laws;
pub mod tools;
