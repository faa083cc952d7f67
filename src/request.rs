use vstd::prelude::*;

verus! {

#[verifier::external_type_specification]
#[verifier::external_body]
pub struct ExJsonError(serde_json::Error);

/// The lowercase hexadecimal digit of `n`, for `n` below 16.
pub open spec fn hex_digit(n: u32) -> char {
    seq!['0', '1', '2', '3', '4', '5', '6', '7', '8', '9', 'a', 'b', 'c', 'd', 'e', 'f'][n as int]
}

/// How one character is written inside a JSON string: quote and backslash
/// behind a backslash, the usual short escapes, other control characters
/// as `\u00` and two hex digits, and everything else as it is.
pub open spec fn escape_char(c: char) -> Seq<char> {
    if c == '"' {
        seq!['\\', '"']
    } else if c == '\\' {
        seq!['\\', '\\']
    } else if c == '\x08' {
        seq!['\\', 'b']
    } else if c == '\x0c' {
        seq!['\\', 'f']
    } else if c == '\n' {
        seq!['\\', 'n']
    } else if c == '\r' {
        seq!['\\', 'r']
    } else if c == '\t' {
        seq!['\\', 't']
    } else if (c as u32) < 0x20 {
        seq!['\\', 'u', '0', '0', hex_digit((c as u32) / 16), hex_digit((c as u32) % 16)]
    } else {
        seq![c]
    }
}

/// The characters of `s`, each escaped.
pub open spec fn escaped(s: Seq<char>) -> Seq<char>
    decreases s.len(),
{
    if s.len() == 0 {
        Seq::empty()
    } else {
        escaped(s.drop_last()) + escape_char(s.last())
    }
}

/// The JSON string literal of the text `s`.
pub open spec fn json_string_of(s: Seq<char>) -> Seq<char> {
    "\""@ + escaped(s) + "\""@
}

/// Relies on serde_json::to_string applied to a string slice: it writes the
/// text between quotes with the escapes of `escape_char`, into a buffer in
/// memory, and so never fails.
#[verifier::external_body]
fn json_string(s: &str) -> (r: Result<String, serde_json::Error>)
    ensures
        r is Ok,
        r matches Ok(t) ==> t@ == json_string_of(s@),
{
    serde_json::to_string(s)
}

/// The words that open the prompt of every analysis request.
pub const PROMPT_INTRO: &'static str = "You are a radiology analysis system. Analyze the following medical image:\n\n";

/// A medical image submitted for analysis, as its parts' text and bytes.
pub struct ImageView {
    pub image_id: Seq<char>,
    pub data: Seq<u8>,
    /// Metadata pairs in the order their keys were first set.
    pub metadata: Seq<(Seq<char>, Seq<char>)>,
}

/// Each key occurs once among the pairs.
pub open spec fn keys_unique(ms: Seq<(Seq<char>, Seq<char>)>) -> bool {
    forall|i: int, j: int| 0 <= i < j < ms.len() ==> ms[i].0 != ms[j].0
}

/// A medical image submitted for analysis. Its metadata map each key to
/// one value and keep the order in which keys were first set.
pub struct RadiologyImage {
    image_id: String,
    data: Vec<u8>,
    metadata: Vec<(String, String)>,
}

impl View for RadiologyImage {
    type V = ImageView;

    closed spec fn view(&self) -> ImageView {
        ImageView { image_id: self.image_id@, data: self.data@, metadata: pairs_view(self.metadata@) }
    }
}

impl RadiologyImage {
    /// No metadata key occurs twice.
    pub closed spec fn wf(&self) -> bool {
        keys_unique(pairs_view(self.metadata@))
    }

    /// An image with no metadata.
    pub fn new(image_id: String, data: Vec<u8>) -> (r: Self)
        ensures
            r@.image_id == image_id@,
            r@.data == data@,
            r@.metadata.len() == 0,
            r.wf(),
    {
        RadiologyImage { image_id, data, metadata: Vec::new() }
    }

    pub fn image_id(&self) -> (r: &String)
        ensures
            r@ == self@.image_id,
    {
        &self.image_id
    }

    pub fn data(&self) -> (r: &Vec<u8>)
        ensures
            r@ == self@.data,
    {
        &self.data
    }

    /// The metadata pairs.
    pub fn metadata(&self) -> (r: &Vec<(String, String)>)
        ensures
            pairs_view(r@) == self@.metadata,
            self.wf() ==> keys_unique(self@.metadata),
    {
        &self.metadata
    }

    /// Sets the metadata `key` to `value`: an existing entry for the key
    /// keeps its place and takes the new value; a new key goes last.
    pub fn insert_metadata(&mut self, key: String, value: String)
        requires
            old(self).wf(),
        ensures
            final(self).wf(),
            final(self)@.image_id == old(self)@.image_id,
            final(self)@.data == old(self)@.data,
            keys_unique(final(self)@.metadata),
            forall|i: int|
                0 <= i < old(self)@.metadata.len() && old(self)@.metadata[i].0 == key@
                    ==> final(self)@.metadata == old(self)@.metadata.update(i, (key@, value@)),
            (forall|i: int| 0 <= i < old(self)@.metadata.len() ==> old(self)@.metadata[i].0 != key@)
                ==> final(self)@.metadata == old(self)@.metadata.push((key@, value@)),
    {
        let ghost before = pairs_view(self.metadata@);
        let mut i: usize = 0;
        while i < self.metadata.len()
            invariant
                i <= self.metadata@.len(),
                *self == *old(self),
                before == pairs_view(self.metadata@),
                keys_unique(before),
                forall|j: int| 0 <= j < i ==> before[j].0 != key@,
            decreases self.metadata@.len() - i,
        {
            if self.metadata[i].0 == key {
                let ghost at = i as int;
                proof {
                    assert(before[at].0 == key@);
                }
                self.metadata.set(i, (key, value));
                proof {
                    assert(pairs_view(self.metadata@) =~= before.update(at, (key@, value@)));
                    assert forall|j: int| 0 <= j < before.len() && before[j].0 == key@ implies j == at by {
                        if j != at {
                            if j < at {
                                assert(before[j].0 != before[at].0);
                            } else {
                                assert(before[at].0 != before[j].0);
                            }
                        }
                    }
                    assert(keys_unique(pairs_view(self.metadata@)));
                }
                return;
            }
            i = i + 1;
        }
        self.metadata.push((key, value));
        proof {
            assert(pairs_view(self.metadata@) =~= before.push((key@, value@)));
        }
    }
}

/// A chat-style message: who speaks, and what they say.
pub struct AnalysisMessage {
    pub role: String,
    pub content: String,
}

/// The metadata pairs of an image as text.
pub open spec fn pairs_view(pairs: Seq<(String, String)>) -> Seq<(Seq<char>, Seq<char>)> {
    pairs.map_values(|p: (String, String)| (p.0@, p.1@))
}

/// One member of a JSON object, from an encoded key and an encoded value.
pub open spec fn member_text(key: Seq<char>, value: Seq<char>) -> Seq<char> {
    key + ":"@ + value
}

/// Encoded members separated by commas.
pub open spec fn members_text(ms: Seq<(Seq<char>, Seq<char>)>) -> Seq<char>
    decreases ms.len(),
{
    if ms.len() == 0 {
        Seq::empty()
    } else if ms.len() == 1 {
        member_text(ms[0].0, ms[0].1)
    } else {
        members_text(ms.drop_last()) + ","@ + member_text(ms.last().0, ms.last().1)
    }
}

/// A JSON object from encoded keys and values.
pub open spec fn object_text(ms: Seq<(Seq<char>, Seq<char>)>) -> Seq<char> {
    "{"@ + members_text(ms) + "}"@
}

/// Plain keys and values, each encoded as a JSON string.
pub open spec fn encoded_pairs(ms: Seq<(Seq<char>, Seq<char>)>) -> Seq<(Seq<char>, Seq<char>)> {
    ms.map_values(|p: (Seq<char>, Seq<char>)| (json_string_of(p.0), json_string_of(p.1)))
}

/// The metadata of an image as a JSON object of strings.
pub open spec fn metadata_json(ms: Seq<(Seq<char>, Seq<char>)>) -> Seq<char> {
    object_text(encoded_pairs(ms))
}

/// The prompt that asks a model to analyse an image with metadata `ms`.
pub open spec fn prompt_of(ms: Seq<(Seq<char>, Seq<char>)>) -> Seq<char> {
    PROMPT_INTRO@ + metadata_json(ms)
}

/// A request object, from its encoded image id, model name and prompt.
pub open spec fn request_frame(image_id: Seq<char>, model: Seq<char>, prompt: Seq<char>) -> Seq<
    char,
> {
    "{\"image_id\":"@ + image_id + ",\"model\":"@ + model + ",\"prompt\":"@ + prompt + "}"@
}

/// The request text that asks `model` to analyse an image.
pub open spec fn request_text(
    image_id: Seq<char>,
    model: Seq<char>,
    ms: Seq<(Seq<char>, Seq<char>)>,
) -> Seq<char> {
    request_frame(json_string_of(image_id), json_string_of(model), json_string_of(prompt_of(ms)))
}

/// Joins already encoded keys and values into a JSON object.
pub fn frame_object(members: &Vec<(String, String)>) -> (r: String)
    ensures
        r@ == object_text(pairs_view(members@)),
{
    let mut body = String::new();
    let mut i: usize = 0;
    while i < members.len()
        invariant
            i <= members@.len(),
            body@ == members_text(pairs_view(members@.take(i as int))),
        decreases members@.len() - i,
    {
        let ghost before = body@;
        if i > 0 {
            body.append(",");
        }
        body.append(members[i].0.as_str());
        body.append(":");
        body.append(members[i].1.as_str());
        proof {
            let next = pairs_view(members@.take(i + 1));
            assert(next.drop_last() =~= pairs_view(members@.take(i as int)));
            assert(next.last() == (members@[i as int].0@, members@[i as int].1@));
            if i == 0 {
                assert(before == Seq::<char>::empty());
                assert(body@ =~= member_text(next[0].0, next[0].1));
            } else {
                assert(body@ =~= members_text(next.drop_last()) + ","@ + member_text(
                    next.last().0,
                    next.last().1,
                ));
            }
        }
        i = i + 1;
    }
    assert(members@.take(members@.len() as int) =~= members@);
    let mut r = String::new();
    r.append("{");
    r.append(body.as_str());
    r.append("}");
    proof {
        assert(r@ =~= object_text(pairs_view(members@)));
    }
    r
}

/// Joins an encoded image id, model name and prompt into a request object.
pub fn frame_request(image_id: &str, model: &str, prompt: &str) -> (r: String)
    ensures
        r@ == request_frame(image_id@, model@, prompt@),
{
    let mut r = String::new();
    r.append("{\"image_id\":");
    r.append(image_id);
    r.append(",\"model\":");
    r.append(model);
    r.append(",\"prompt\":");
    r.append(prompt);
    r.append("}");
    proof {
        assert(r@ =~= request_frame(image_id@, model@, prompt@));
    }
    r
}

fn encode_string(s: &str) -> (r: String)
    ensures
        r@ == json_string_of(s@),
{
    match json_string(s) {
        Ok(t) => t,
        Err(_) => {
            proof {
                assert(false);
            }
            String::new()
        },
    }
}

/// The metadata of an image as a JSON object of strings.
pub fn encode_metadata(pairs: &Vec<(String, String)>) -> (r: String)
    ensures
        r@ == metadata_json(pairs_view(pairs@)),
{
    let mut members: Vec<(String, String)> = Vec::new();
    let mut i: usize = 0;
    while i < pairs.len()
        invariant
            i <= pairs@.len(),
            members@.len() == i,
            pairs_view(members@) == encoded_pairs(pairs_view(pairs@.take(i as int))),
        decreases pairs@.len() - i,
    {
        let k = encode_string(pairs[i].0.as_str());
        let v = encode_string(pairs[i].1.as_str());
        let ghost prev = members@;
        members.push((k, v));
        proof {
            let want = encoded_pairs(pairs_view(pairs@.take(i + 1)));
            let had = encoded_pairs(pairs_view(pairs@.take(i as int)));
            assert forall|j: int| 0 <= j < i implies #[trigger] want[j] == had[j] by {
                assert(pairs@.take(i + 1)[j] == pairs@.take(i as int)[j]);
            }
            assert(pairs_view(prev) == had);
            assert forall|j: int| 0 <= j < i implies #[trigger] pairs_view(members@)[j] == pairs_view(prev)[j] by {
                assert(members@[j] == prev[j]);
            }
            assert(want[i as int] == (json_string_of(pairs@[i as int].0@), json_string_of(pairs@[i as int].1@)));
            assert(pairs_view(members@)[i as int] == (k@, v@));
            assert(pairs_view(members@) =~= encoded_pairs(pairs_view(pairs@.take(i + 1))));
        }
        i = i + 1;
    }
    assert(pairs@.take(pairs@.len() as int) =~= pairs@);
    frame_object(&members)
}

/// The prompt that asks a model to analyse an image with these metadata.
pub fn build_prompt(pairs: &Vec<(String, String)>) -> (r: String)
    ensures
        r@ == prompt_of(pairs_view(pairs@)),
{
    let meta = encode_metadata(pairs);
    let mut prompt = String::from_str(PROMPT_INTRO);
    prompt.append(meta.as_str());
    prompt
}

/// The request text that asks `model` to analyse `image`.
pub fn encode_request(image: &RadiologyImage, model: &str) -> (r: String)
    ensures
        r@ == request_text(image@.image_id, model@, image@.metadata),
{
    let prompt = build_prompt(image.metadata());
    let image_id = encode_string(image.image_id().as_str());
    let model_json = encode_string(model);
    let prompt_json = encode_string(prompt.as_str());
    frame_request(image_id.as_str(), model_json.as_str(), prompt_json.as_str())
}

} // verus!
