//! A DNS relay core: parses client queries, answers configured names
//! locally, and decides what a forwarding relay does next.

pub mod config;
pub mod interceptor;
pub mod record;
pub mod relay;
pub mod wire;

pub use interceptor::DnsInterceptor;
pub use record::{HostAddress, NamePattern, Pattern, ResourceRecord, DEFAULT_TTL};
pub use relay::{
    DefaultInterceptor, Interceptor, RelayAction, RelayEvent, RelayState, UdpRelay,
};
pub use wire::{
    create_message, parse_domain_label, parse_message, to_u16, Header, Question, SynthesisError,
};
pub use config::{parse_dns_record, parse_options, parse_ttl, RecordOptions};
