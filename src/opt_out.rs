use vstd::prelude::*;
use vstd::string::*;

verus! {

/// Whether the user opted out of sharing content, from the stored sharing setting: an unset
/// setting means sharing is allowed.
pub fn is_codewhisperer_content_optout(share_content: Option<bool>) -> (r: bool)
    ensures
        r == (share_content == Some(false)),
{
    match share_content {
        Some(v) => !v,
        None => false,
    }
}

/// Decides the opt-out header that outgoing requests carry.
#[derive(Debug, Clone, Copy)]
pub struct OptOutInterceptor {
    pub is_codewhisperer_content_optout: bool,
    /// When set, used in place of the stored setting.
    pub override_value: Option<bool>,
}

impl OptOutInterceptor {
    /// The opt-out value to send: the override if any, else the stored choice.
    pub open spec fn opt_out_spec(&self) -> bool {
        match self.override_value {
            Some(v) => v,
            None => self.is_codewhisperer_content_optout,
        }
    }

    pub fn new(share_content: Option<bool>) -> (r: OptOutInterceptor)
        ensures
            r.is_codewhisperer_content_optout == (share_content == Some(false)),
            r.override_value is None,
    {
        OptOutInterceptor {
            is_codewhisperer_content_optout: is_codewhisperer_content_optout(share_content),
            override_value: None,
        }
    }

    pub fn opt_out(&self) -> (r: bool)
        ensures
            r == self.opt_out_spec(),
    {
        match self.override_value {
            Some(v) => v,
            None => self.is_codewhisperer_content_optout,
        }
    }

    /// The header value: `"true"` or `"false"`.
    pub fn header_value(&self) -> (r: String)
        ensures
            r@ == (if self.opt_out_spec() { "true"@ } else { "false"@ }),
    {
        proof {
            reveal_strlit("true");
            reveal_strlit("false");
        }
        if self.opt_out() {
            String::from_str("true")
        } else {
            String::from_str("false")
        }
    }
}

} // verus!
