//! The validated target of a scan.
//!
//! A scanner exists only for an address that parses and a port range that is
//! in order, so nothing can be probed before both have been checked.

use crate::address::{address_of_text, parse_address, IpAddress};
use crate::banner::Config;
use crate::dispatch::{can_dispatch, initial, Dispatcher, CONCURRENT_LIMIT};
use crate::text::{append_decimal, decimal};
use vstd::prelude::*;
use vstd::string::*;

verus! {

/// Whether the ports from `start` to `end` form a range that can be
/// scanned: port 0 is no port, no port lies above 65535, and the range is
/// not empty.
pub open spec fn range_is_valid(start: int, end: int) -> bool {
    1 <= start <= end <= 65535
}

/// Why a target was refused.
#[derive(Debug)]
pub enum ValidationError {
    /// The text is no IP address. It is kept for the message.
    InvalidAddress(String),
    /// The ports, start and end, are no range.
    InvalidRange(u16, u16),
}

/// What a `ValidationError` holds, as plain values.
pub enum ErrorView {
    InvalidAddress(Seq<char>),
    InvalidRange(int, int),
}

impl View for ValidationError {
    type V = ErrorView;

    open spec fn view(&self) -> ErrorView {
        match self {
            ValidationError::InvalidAddress(text) => ErrorView::InvalidAddress(text@),
            ValidationError::InvalidRange(start, end) => ErrorView::InvalidRange(
                *start as int,
                *end as int,
            ),
        }
    }
}

/// The message of a validation error.
pub open spec fn error_message(error: ErrorView) -> Seq<char> {
    match error {
        ErrorView::InvalidAddress(text) => "Invalid IP address: "@ + text,
        ErrorView::InvalidRange(start, end) => "Invalid port range: "@ + decimal(start as nat)
            + "-"@ + decimal(end as nat),
    }
}

impl ValidationError {
    /// The message to show for this error.
    pub fn message(&self) -> (message: String)
        ensures
            message@ == error_message(self@),
    {
        proof {
            reveal_strlit("Invalid IP address: ");
            reveal_strlit("Invalid port range: ");
            reveal_strlit("-");
        }
        let mut message = String::new();
        match self {
            ValidationError::InvalidAddress(text) => {
                message.append("Invalid IP address: ");
                message.append(text.as_str());
                assert(message@ =~= error_message(self@));
            },
            ValidationError::InvalidRange(start, end) => {
                message.append("Invalid port range: ");
                append_decimal(&mut message, *start as u32);
                message.append("-");
                append_decimal(&mut message, *end as u32);
                assert(message@ =~= error_message(self@));
            },
        }
        message
    }
}

/// One connection attempt: where to, and how long to wait for it.
#[derive(Clone, Copy, Debug, PartialEq, Eq, Structural)]
pub struct ConnectRequest {
    pub target: IpAddress,
    pub port: u16,
    pub timeout_secs: u64,
}

/// What a `PortScanner` holds, as plain values.
pub struct ScannerView {
    pub target: IpAddress,
    pub text: Seq<char>,
    pub start_port: int,
    pub end_port: int,
    pub config: Config,
}

/// What validation makes of its input: the scanner, or the reason why
/// there is none. The address is judged first.
pub open spec fn validated(
    text: Seq<char>,
    start_port: int,
    end_port: int,
    config: Config,
) -> Result<ScannerView, ErrorView> {
    match address_of_text(text) {
        None => Err(ErrorView::InvalidAddress(text)),
        Some(target) => if range_is_valid(start_port, end_port) {
            Ok(ScannerView { target, text, start_port, end_port, config })
        } else {
            Err(ErrorView::InvalidRange(start_port, end_port))
        },
    }
}

/// A target that passed validation, with the settings of its scan. Nothing
/// changes it afterwards.
pub struct PortScanner {
    target: IpAddress,
    text: String,
    start_port: u16,
    end_port: u16,
    config: Config,
}

impl View for PortScanner {
    type V = ScannerView;

    closed spec fn view(&self) -> ScannerView {
        ScannerView {
            target: self.target,
            text: self.text@,
            start_port: self.start_port as int,
            end_port: self.end_port as int,
            config: self.config,
        }
    }
}

impl PortScanner {
    #[verifier::type_invariant]
    spec fn well_formed(self) -> bool {
        range_is_valid(self.start_port as int, self.end_port as int)
    }

    /// Validates a target.
    ///
    /// The result is a scanner exactly when `target` is the text of an IP
    /// address and the ports form a range. A text that is no address is an
    /// `InvalidAddress`, whatever the ports; an address with ports that
    /// form no range is an `InvalidRange`.
    pub fn new(target: &str, start_port: u16, end_port: u16, config: Config) -> (result: Result<
        PortScanner,
        ValidationError,
    >)
        ensures
            match result {
                Ok(scanner) => validated(target@, start_port as int, end_port as int, config)
                    == Ok::<ScannerView, ErrorView>(scanner@),
                Err(error) => validated(target@, start_port as int, end_port as int, config)
                    == Err::<ScannerView, ErrorView>(error@),
            },
    {
        match parse_address(target) {
            None => Err(ValidationError::InvalidAddress(target.to_owned())),
            Some(address) => {
                if start_port == 0 || start_port > end_port {
                    Err(ValidationError::InvalidRange(start_port, end_port))
                } else {
                    Ok(
                        PortScanner {
                            target: address,
                            text: target.to_owned(),
                            start_port,
                            end_port,
                            config,
                        },
                    )
                }
            },
        }
    }

    /// The address to scan.
    pub fn target(&self) -> (target: IpAddress)
        ensures
            target == self@.target,
    {
        self.target
    }

    /// The address to scan, as it was written.
    pub fn target_text(&self) -> (text: &str)
        ensures
            text@ == self@.text,
    {
        self.text.as_str()
    }

    /// The first port of the range, which is at least 1.
    pub fn start_port(&self) -> (port: u16)
        ensures
            port == self@.start_port,
            range_is_valid(self@.start_port, self@.end_port),
    {
        proof {
            use_type_invariant(self);
        }
        self.start_port
    }

    /// The last port of the range, which is not below the first.
    pub fn end_port(&self) -> (port: u16)
        ensures
            port == self@.end_port,
            range_is_valid(self@.start_port, self@.end_port),
    {
        proof {
            use_type_invariant(self);
        }
        self.end_port
    }

    /// The settings of the scan.
    pub fn config(&self) -> (config: Config)
        ensures
            config == self@.config,
    {
        self.config
    }

    /// What the connection attempt on `port` is made with: the shared
    /// address, the port, and the shared timeout.
    pub fn connect_request(&self, port: u16) -> (request: ConnectRequest)
        ensures
            request == (ConnectRequest {
                target: self@.target,
                port,
                timeout_secs: self@.config.timeout_secs,
            }),
    {
        ConnectRequest { target: self.target, port, timeout_secs: self.config.timeout_secs }
    }

    /// The dispatcher of this scan, in its first state, with the ordinary
    /// ceiling.
    pub fn dispatcher(&self) -> (dispatcher: Dispatcher)
        ensures
            dispatcher@ == initial(
                self@.start_port,
                self@.end_port,
                CONCURRENT_LIMIT as nat,
            ),
            can_dispatch(self@.start_port, self@.end_port, CONCURRENT_LIMIT as nat),
    {
        proof {
            use_type_invariant(self);
        }
        Dispatcher::new(self.start_port, self.end_port, CONCURRENT_LIMIT).unwrap()
    }
}

/// The ranges that are refused are those that start at port 0, end above
/// port 65535 or end before they start; and for none of them is there a
/// dispatcher, whatever the ceiling: not one port of such a range is probed.
pub proof fn lemma_invalid_range_is_never_scanned(
    text: Seq<char>,
    start_port: int,
    end_port: int,
    config: Config,
    ceiling: nat,
)
    requires
        0 <= start_port,
        start_port == 0 || end_port > 65535 || start_port > end_port,
    ensures
        !range_is_valid(start_port, end_port),
        validated(text, start_port, end_port, config) is Err,
        !can_dispatch(start_port, end_port, ceiling),
{
}

/// Every range from port 1 upwards that ends at port 65535 or below, and
/// not before its start, is accepted for any text that is an address.
pub proof fn lemma_valid_range_is_accepted(
    text: Seq<char>,
    start_port: int,
    end_port: int,
    config: Config,
)
    requires
        1 <= start_port <= end_port <= 65535,
        address_of_text(text) is Some,
    ensures
        validated(text, start_port, end_port, config) is Ok,
        can_dispatch(start_port, end_port, CONCURRENT_LIMIT as nat),
{
}

} // verus!
