use vstd::prelude::*;

verus! {

/// Mathematical value of a fingerprint record.
pub struct SignatureView {
    pub id: int,
    pub owner: int,
    pub signature: Seq<char>,
    pub filehash: Seq<char>,
    pub filename: Seq<char>,
    pub name: Seq<char>,
    pub index: int,
}

/// A fingerprint record: the fingerprint itself, the file it was taken from,
/// a label, the key that submitted it, and a tally of resubmissions.
#[derive(Clone, Debug)]
pub struct Signature {
    /// Assigned by the store on first persistence; `0` until then.
    pub id: i32,
    /// Id of the API key that submitted the record.
    pub owner: i32,
    pub signature: String,
    pub filehash: String,
    pub filename: String,
    pub name: String,
    /// How often the same fact was submitted again after it was first stored.
    pub index: i32,
}

impl View for Signature {
    type V = SignatureView;

    open spec fn view(&self) -> SignatureView {
        SignatureView {
            id: self.id as int,
            owner: self.owner as int,
            signature: self.signature@,
            filehash: self.filehash@,
            filename: self.filename@,
            name: self.name@,
            index: self.index as int,
        }
    }
}

/// The values of a sequence of records, position by position.
pub open spec fn views(records: Seq<Signature>) -> Seq<SignatureView> {
    Seq::new(records.len(), |i: int| records[i]@)
}

/// Two records state the same fact when fingerprint, file name and file hash
/// agree. The store keeps at most one row per fact.
pub open spec fn same_fact(a: SignatureView, b: SignatureView) -> bool {
    &&& a.signature == b.signature
    &&& a.filename == b.filename
    &&& a.filehash == b.filehash
}

impl Signature {
    /// A record that has not been stored yet: id `0`, tally `0`.
    pub fn new(owner: i32, name: &str, signature: &str, filename: &str, filehash: &str) -> (res:
        Self)
        ensures
            res@ == (SignatureView {
                id: 0,
                owner: owner as int,
                signature: signature@,
                filehash: filehash@,
                filename: filename@,
                name: name@,
                index: 0,
            }),
    {
        Signature {
            id: 0,
            owner,
            signature: signature.to_owned(),
            filehash: filehash.to_owned(),
            filename: filename.to_owned(),
            name: name.to_owned(),
            index: 0,
        }
    }

    /// Whether `self` and `other` state the same fact.
    pub fn collides(&self, other: &Signature) -> (res: bool)
        ensures
            res == same_fact(self@, other@),
    {
        self.signature == other.signature && self.filename == other.filename && self.filehash
            == other.filehash
    }

    /// A copy of the record under another id and tally.
    pub fn stored_as(&self, id: i32, index: i32) -> (res: Signature)
        ensures
            res@ == (SignatureView { id: id as int, index: index as int, ..self@ }),
    {
        Signature {
            id,
            owner: self.owner,
            signature: self.signature.clone(),
            filehash: self.filehash.clone(),
            filename: self.filename.clone(),
            name: self.name.clone(),
            index,
        }
    }

    /// A copy of the record.
    pub fn duplicate(&self) -> (res: Signature)
        ensures
            res@ == self@,
    {
        self.stored_as(self.id, self.index)
    }
}

} // verus!
