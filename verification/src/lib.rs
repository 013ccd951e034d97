//! Speeduino tuning support: the TunerStudio serial protocol (Protocol 3
//! envelope, command templates, page operations, secondary-serial decoding),
//! the ECU-definition INI (preprocessor, lexer, expressions, section
//! parsers), `.msq` tune files and `.msl` datalogs, and the rules of the
//! server (serial-port naming, runtime defaults, device pairing, the comms
//! worker's decisions).

pub mod bytes;
pub mod clock;
pub mod text;
pub mod proto;
pub mod ini;
pub mod datalog;
pub mod msq;
pub mod server;
