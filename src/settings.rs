use vstd::prelude::*;
use vstd::string::StringExecFns;

verus! {

/// The token list every option list starts from, for an index at `path`:
/// single-threaded, SAM text on standard output, unmapped reads kept with
/// their mates, pairs in input order.
pub open spec fn default_args(path: Seq<char>) -> Seq<Seq<char>> {
    seq![
        "STAR"@, "--genomeDir"@, path,
        "--runThreadN"@, "1"@,
        "--readNameSeparator"@, "space"@,
        "--outSAMunmapped"@, "Within"@, "KeepPairs"@,
        "--outSAMtype"@, "SAM"@,
        "--outStd"@, "SAM"@,
        "--outSAMorder"@, "PairedKeepInputOrder"@,
    ]
}

/// The options handed to the engine when an index is loaded: a positional
/// token list in which each option token is followed by its value tokens.
#[derive(Clone)]
pub struct StarSettings {
    reference_path: String,
    args: Vec<String>,
}

/// The decimal digits, as characters.
pub open spec fn digit_chars() -> Seq<char> {
    seq!['0', '1', '2', '3', '4', '5', '6', '7', '8', '9']
}

/// `n` written in decimal, without leading zeros.
pub open spec fn decimal(n: nat) -> Seq<char>
    decreases n,
{
    if n < 10 {
        seq![digit_chars()[n as int]]
    } else {
        decimal(n / 10).push(digit_chars()[(n % 10) as int])
    }
}

/// Where option `flag` stands among `args`: the first `flag` token at
/// position `k` or later.
pub open spec fn option_index(args: Seq<Seq<char>>, flag: Seq<char>, k: int) -> Option<int>
    decreases args.len() - k,
{
    if k < 0 || k >= args.len() {
        None
    } else if args[k] == flag {
        Some(k)
    } else {
        option_index(args, flag, k + 1)
    }
}

/// The first option position after the program name and the index option.
pub open spec fn first_free_position() -> int {
    3
}

fn digit_str(d: usize) -> (r: &'static str)
    requires
        d < 10,
    ensures
        r@ == seq![digit_chars()[d as int]],
{
    proof {
        reveal_strlit("0");
        reveal_strlit("1");
        reveal_strlit("2");
        reveal_strlit("3");
        reveal_strlit("4");
        reveal_strlit("5");
        reveal_strlit("6");
        reveal_strlit("7");
        reveal_strlit("8");
        reveal_strlit("9");
    }
    match d {
        0 => "0",
        1 => "1",
        2 => "2",
        3 => "3",
        4 => "4",
        5 => "5",
        6 => "6",
        7 => "7",
        8 => "8",
        _ => "9",
    }
}

/// `n` written in decimal.
pub fn decimal_string(n: usize) -> (r: String)
    ensures
        r@ == decimal(n as nat),
    decreases n,
{
    if n < 10 {
        String::from_str(digit_str(n))
    } else {
        let mut s = decimal_string(n / 10);
        s.append(digit_str(n % 10));
        s
    }
}

/// The files of an index whose sizes make up its memory footprint.
pub open spec fn index_files() -> Seq<Seq<char>> {
    seq!["Genome"@, "SA"@, "SAindex"@]
}

/// The sum of `sizes`.
pub open spec fn total(sizes: Seq<u64>) -> nat
    decreases sizes.len(),
{
    if sizes.len() == 0 {
        0
    } else {
        total(sizes.drop_last()) + sizes.last() as nat
    }
}

/// The names of the index files whose sizes `total_index_size` adds up.
pub fn index_file_names() -> (r: Vec<&'static str>)
    ensures
        r@.map_values(|n: &str| n@) == index_files(),
{
    let mut r: Vec<&'static str> = Vec::new();
    r.push("Genome");
    r.push("SA");
    r.push("SAindex");
    proof {
        assert(r@.map_values(|n: &str| n@) =~= index_files());
    }
    r
}

/// The memory an index takes, from the sizes of its files: their sum, or
/// `None` where the sum does not fit in `usize`.
pub fn total_index_size(sizes: &[u64]) -> (r: Option<usize>)
    ensures
        r matches Some(t) ==> t == total(sizes@),
        r is None ==> total(sizes@) > usize::MAX,
{
    let mut sum: usize = 0;
    let mut i: usize = 0;
    while i < sizes.len()
        invariant
            0 <= i <= sizes@.len(),
            sum == total(sizes@.subrange(0, i as int)),
        decreases sizes@.len() - i,
    {
        proof {
            assert(sizes@.subrange(0, i + 1).drop_last() =~= sizes@.subrange(0, i as int));
        }
        if sizes[i] > usize::MAX as u64 {
            proof {
                lemma_total_prefix(sizes@, i + 1);
            }
            return None;
        }
        match sum.checked_add(sizes[i] as usize) {
            Some(t) => {
                sum = t;
            },
            None => {
                proof {
                    lemma_total_prefix(sizes@, i + 1);
                }
                return None;
            },
        }
        i = i + 1;
    }
    proof {
        assert(sizes@.subrange(0, i as int) =~= sizes@);
    }
    Some(sum)
}

proof fn lemma_total_prefix(sizes: Seq<u64>, i: int)
    requires
        0 <= i <= sizes.len(),
    ensures
        total(sizes.subrange(0, i)) <= total(sizes),
    decreases sizes.len() - i,
{
    if i < sizes.len() {
        lemma_total_prefix(sizes, i + 1);
        assert(sizes.subrange(0, i + 1).drop_last() =~= sizes.subrange(0, i));
    } else {
        assert(sizes.subrange(0, i) =~= sizes);
    }
}

impl View for StarSettings {
    type V = Seq<Seq<char>>;

    closed spec fn view(&self) -> Seq<Seq<char>> {
        self.args@.map_values(|a: String| a@)
    }
}

impl StarSettings {
    /// The index directory stands as the value of the `--genomeDir` option,
    /// the second and third tokens.
    pub closed spec fn wf(&self) -> bool {
        &&& self.args@.len() >= 3
        &&& self.args@[1]@ == "--genomeDir"@
        &&& self.args@[2]@ == self.reference_path@
    }

    /// Points the options at the index in `path`: the value token of the
    /// `--genomeDir` option is overwritten, and nothing else moves.
    pub fn set_reference_path(&mut self, path: &str)
        requires
            old(self).wf(),
        ensures
            final(self).wf(),
            old(self)@[1] == "--genomeDir"@,
            final(self)@ == old(self)@.update(2, path@),
            final(self).spec_reference_path() == path@,
    {
        self.reference_path = path.to_owned();
        self.args.set(2, path.to_owned());
        proof {
            assert(self@ =~= old(self)@.update(2, path@));
        }
    }

    /// The index directory these options name.
    pub closed spec fn spec_reference_path(&self) -> Seq<char> {
        self.reference_path@
    }

    /// Options with every default set, for the index at `reference_path`.
    pub fn new(reference_path: &str) -> (r: StarSettings)
        ensures
            r@ == default_args(reference_path@),
            r.spec_reference_path() == reference_path@,
            r.wf(),
    {
        let mut args: Vec<String> = Vec::new();
        args.push("STAR".to_owned());
        args.push("--genomeDir".to_owned());
        args.push(reference_path.to_owned());
        args.push("--runThreadN".to_owned());
        args.push("1".to_owned());
        args.push("--readNameSeparator".to_owned());
        args.push("space".to_owned());
        args.push("--outSAMunmapped".to_owned());
        args.push("Within".to_owned());
        args.push("KeepPairs".to_owned());
        args.push("--outSAMtype".to_owned());
        args.push("SAM".to_owned());
        args.push("--outStd".to_owned());
        args.push("SAM".to_owned());
        args.push("--outSAMorder".to_owned());
        args.push("PairedKeepInputOrder".to_owned());
        let r = StarSettings { reference_path: reference_path.to_owned(), args };
        proof {
            assert(r@ =~= default_args(reference_path@));
        }
        r
    }

    /// Adds one token at the end of the option list.
    pub fn arg(self, arg: &str) -> (r: Self)
        ensures
            r@ == self@.push(arg@),
            r.spec_reference_path() == self.spec_reference_path(),
            self.wf() ==> r.wf(),
    {
        let mut s = self;
        s.args.push(arg.to_owned());
        proof {
            assert(s@ =~= self@.push(arg@));
        }
        s
    }

    /// Appends the read-group option followed by each of `rg_tags`, in order.
    pub fn add_rg(&mut self, rg_tags: Vec<String>)
        ensures
            final(self)@ == old(self)@.push("--outSAMattrRGline"@) + rg_tags@.map_values(
                |t: String| t@,
            ),
            final(self).spec_reference_path() == old(self).spec_reference_path(),
            old(self).wf() ==> final(self).wf(),
    {
        self.args.push("--outSAMattrRGline".to_owned());
        let ghost start = self@;
        let mut i: usize = 0;
        while i < rg_tags.len()
            invariant
                0 <= i <= rg_tags.len(),
                start == old(self)@.push("--outSAMattrRGline"@),
                self@ == start + rg_tags@.subrange(0, i as int).map_values(|t: String| t@),
                self.spec_reference_path() == old(self).spec_reference_path(),
                old(self).wf() ==> self.wf(),
            decreases rg_tags.len() - i,
        {
            let tag = rg_tags[i].clone();
            let ghost prev = self@;
            self.args.push(tag);
            proof {
                assert(self@ =~= prev.push(tag@));
                let f = |t: String| t@;
                assert(rg_tags@.subrange(0, i + 1).map_values(f) =~= rg_tags@.subrange(
                    0,
                    i as int,
                ).map_values(f).push(rg_tags@[i as int]@));
                assert(self@ =~= start + rg_tags@.subrange(0, i + 1).map_values(f));
            }
            i = i + 1;
        }
        proof {
            assert(rg_tags@.subrange(0, i as int) =~= rg_tags@);
        }
    }

    /// Caps the number of loci a read may map to. The first
    /// `--outFilterMultimapNmax` option after the index option gets `n` as
    /// its value: its value token is overwritten, or `n` is appended where
    /// the option is the last token. Where there is no such option, the
    /// option and its value are appended. The option is never duplicated.
    pub fn set_multimap_max(&mut self, n: usize)
        ensures
            final(self).spec_reference_path() == old(self).spec_reference_path(),
            old(self).wf() ==> final(self).wf(),
            match option_index(old(self)@, "--outFilterMultimapNmax"@, first_free_position()) {
                Some(i) => if i + 1 < old(self)@.len() {
                    final(self)@ == old(self)@.update(i + 1, decimal(n as nat))
                } else {
                    final(self)@ == old(self)@.push(decimal(n as nat))
                },
                None => final(self)@ == old(self)@.push("--outFilterMultimapNmax"@).push(decimal(n as nat)),
            },
    {
        let flag = "--outFilterMultimapNmax".to_owned();
        let value = decimal_string(n);
        let mut k: usize = 3;
        while k < self.args.len()
            invariant
                3 <= k,
                *self == *old(self),
                option_index(self@, flag@, 3) == option_index(self@, flag@, k as int),
                flag@ == "--outFilterMultimapNmax"@,
                value@ == decimal(n as nat),
            decreases self.args@.len() - k,
        {
            if self.args[k] == flag {
                let ghost prev = self.args@;
                proof {
                    assert(self@[k as int] == flag@);
                    assert(option_index(self@, flag@, k as int) == Some(k as int));
                }
                if k + 1 < self.args.len() {
                    self.args.set(k + 1, value);
                    proof {
                        assert(self.args@ == prev.update(k + 1, value));
                        assert(self@ =~= old(self)@.update(k + 1, decimal(n as nat)));
                    }
                } else {
                    self.args.push(value);
                    proof {
                        assert(self@ =~= old(self)@.push(decimal(n as nat)));
                    }
                }
                return;
            }
            k = k + 1;
        }
        self.args.push(flag);
        self.args.push(value);
        proof {
            assert(self@ =~= old(self)@.push("--outFilterMultimapNmax"@).push(decimal(n as nat)));
        }
    }

    /// The index directory these options name.
    pub fn reference_path(&self) -> (r: &str)
        ensures
            r@ == self.spec_reference_path(),
    {
        self.reference_path.as_str()
    }

    /// The option tokens, in the order the engine receives them.
    pub fn args(&self) -> (r: &Vec<String>)
        ensures
            r@.map_values(|a: String| a@) == self@,
    {
        &self.args
    }
}

} // verus!
