use vstd::prelude::*;

use crate::text::join;

verus! {

/// Whether requests to OpenAI go through a proxy, and the proxy's base URL.
pub struct ProxyConfig {
    pub enabled: bool,
    pub base_url: String,
}

impl ProxyConfig {
    /// The chat completions endpoint: under the proxy where it is enabled, else OpenAI's.
    pub fn get_openai_url(&self) -> (r: String)
        ensures
            self.enabled ==> r@ == self.base_url@ + "/openai/v1/chat/completions"@,
            !self.enabled ==> r@ == "https://api.openai.com/v1/chat/completions"@,
    {
        if self.enabled {
            join(self.base_url.as_str(), "/openai/v1/chat/completions")
        } else {
            "https://api.openai.com/v1/chat/completions".to_owned()
        }
    }

    /// The models endpoint: under the proxy where it is enabled, else OpenAI's.
    pub fn get_openai_models_url(&self) -> (r: String)
        ensures
            self.enabled ==> r@ == self.base_url@ + "/openai/v1/models"@,
            !self.enabled ==> r@ == "https://api.openai.com/v1/models"@,
    {
        if self.enabled {
            join(self.base_url.as_str(), "/openai/v1/models")
        } else {
            "https://api.openai.com/v1/models".to_owned()
        }
    }
}

} // verus!
