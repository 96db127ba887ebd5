use iota_conversion::Trinary;
use iota_signing::checksum::remove_checksum;
use iota_signing::{
    address, digest, digests, key, normalized_bundle, signature_fragment, validate_signatures,
    Error,
};

const KEY_LENGTH: usize = 6561;

const TEST_SEED: &str =
    "IHDEENZYITYVYSPKAURUZAQKGVJEREFDJMYTANNXXGPZ9GJWTEOJJ9IPMXOGZNQLSNMFDSQOTZAEETUEA";
const FIRST_ADDR: &str = "LXQHWNY9CQOHPNMKFJFIJHGEPAENAOVFRDIBF99PPHDTWJDCGHLYETXT9NPUVSNKT9XDTDYNJKJCPQMZCCOZVXMTXC";
const ADDR: &str = "HLHRSJNPUUGRYOVYPSTEQJKETXNXDIWQURLTYDBJADGIYZCFXZTTFSOCECPPPPY9BYWPODZOCWJKXEWXDPUYEOTFQA";
const SIG1: &str = "PYWFM9MYTPNZ9HTLZBBB9CGQWKPALDUNAQYCAA9VMQ9UMBLLAXSPPHQSNAAKJA9MZBXBHBQBFFKMBSDHDTCVCDWLUYCEQ9YZJAJAXXXZHDWTSLWGIWRE9LJFVWAFUMOAGHDBHJQ9APNBLSX9GPTJNTO9SBJT9UKYCZXYAWVGXEBJANNWEWZSPRYHASHGIFUWOEHUFMP9MWQBYZOZESCPLVJUCWGLEJIDPMEVNPBITBNFSQ9GBWCDTQZOPLPXOWWNQAEIXQRWMHAQDH9C9KKHGNKAX9INMUVVGIK9TPGRHOMDFAB9VICYDMSHHDDBRSTEFSZXMXFJUQRRAFBSCNHSMKRNNTTCMBURKBGC9EDWKLPBSQAKYCUKKSZWRVURZGUA9QVSXXPICIYFHLPJSWEFBZPUTWWNIKSAJM9OMRFFQVFJZZHLQBSEYXM9CN9HCGHSJBTYDGWOQPXOPZZE9EPQAQFT9GDWZCSOPMZHYYZXDDZ9DJDLOOOTIFQANFANNAYVIRUNDXSB9XRNXJYRDBLTEDWSUOVISMCHGKD9KDRSFDWRSVZQQKGAMDXFAWBSLMTTUMH9RAUIVI9HJMTODACSOP9MLHOJMSIWQ9TTNGPXRNWRHLMEMAH9GZHJRNJHQNBBLWKFXIZBMGMATZIZBFDPAFDCLDIFFAIK9JUSFYYC9ANDGXCZFLZYGURTUI9SWYYRGDJAHXDDNHSJZBCENZUSQXSFZMTXSFLRK9RIYAUMHPBOBNOXCHDIMBGIBVOOHIDQ9ORHHDECDTREIEILWDUFMUWYMGIXBIKRZMKGXTYZTX9GKFP9AUXMTUUQXRHHKPYULGJFJLEEYCNKLOWULRIAFM9OYKEDFRXFVTSJMSEMOURCLNOIETIHEUCMPLWKDXDO9TAHVH99MKTBAAKCMYKLJUQIVLLSVTFUM9KDSIHYXYHPRLDADSLSSOIGLLXMPKTHS9YXUNMUTBTBPDWXA9GVTBGLTCLEZEUNNIRBBURDWOFFYXELPFSZRQARVRPHGETKJTRUZIFDDWBOHHGUZTODZFMOVMAGCYCTGBWSGAVZADIPIASCKTRKIUUMHNGUYZKDVOPKKHXD9EXVUVJ9YFNYMLIJLEEGPIZLFS9FIEMG9MIEO9FPW9JZEVDQOECMTESICSMVWXZNXXJILJLVQHEBHQWPOBHKEGRLFCPLB9ZECJOZDAB9DMU9UALBIQDABVDYRRTPMZOCQX9WNGXVNKQZWPA9ACVONQMRHQDPPIQTP9VKP9PAORNOFTZZWGC9RYBWSNLULZGYLMYIWWPDMOHPZTQWRPRCN9RAUOKDSCWBRI9NPUPLBILOZDOOPHSWQGJEGUYWAWJDEBLEOBSYYU9XSRPBHRUQXIDOWJZQQVJTMP9VLWLOGBK9FZFHYLJCNENDATNPSF99DFPVPTNNKIUMHRGEBJXNUVENAHYLFPPHYFTIKCB9DBVCCSJTDMOMISBAAEJVBVLHOADKNFG9NQGIGRDICQCWZVHGGXLTUNQKBUTLDWXIM9REWBLIXFBPTOXBLWBQQUSRLRDHTXQWARPMBQILAJSYLLTDAGTFPCXBCDITDOIZNGKPZQWWHJDZIPYCPFEYFD9CVXYOJHJNUNMCMSIAUVSKCACNNPGDYJJVTZOREJOPIBYCMBULMTSDTJPZNVNYQBQPPABOSSNZJKQQZ9LULSHJUBLHIFMYWSNPGUERCLVFV9LOEBJEERYHI9OMSMSCDFDLNHEMLQXNRJDYSNKTOYCPTAUWAWIGCPJKMAMGLXNBJMO9BZGFIHWDVJWYCNZZV9KBWIFQSMAXBPGVXDW9SLTHOLMJORRXZJSTNOQDRGNBLGTFCCNBJECYZGWTDRJKJRBAJRCULMOUBQJFWCLWMEWGAAVNZWMDWBYDKZMUCZAKXQLRQPIQJPMORKJXKSDTGXWDHAKUOSMXCFXWSZYWXODWFACBMFSWQFVMBELPZMISVWRQQQPNHOTWOEQQAQJDLXFEEBXLJQEECWG9ARRRDLTVBHTPARJMLOZHYWDCSXPTZCNZWTCRUJNZWKFZXAARPHFCBTLWSLERGJJMKIG9NEBADRMZWYNWIRGTMOBRKURUE9GDLRIEODY9BXJOZUVNCXKXFPFDXKUTMXZRJDOQ9YTV9BJDKGZBYTWGVPQQMNVCNARLPSRQWN9TRMHWLNEJZFTCSRD";
const SIG2: &str = "URKFKLNXFEKDOGSQVMAOPEDIWSMTCKJZ9KEVWYALY9JAO9KHUGNDTMGQLKQJUIPWDIVMPEDSVPLFMDCIXDDT9WBBRTFQENL9AXLSBYHINXCDYBFGRNKJDYHAQVJKWCVOYXHTNBEZUNLVMJLUMZYJFAOW9PVVMJZNZZFJQEQFELVFZVFVWPJ9WQZJLPSGBYECHXSFVFQJGUCPFXC9GATTILVCAANNHOYMLOYX9QSUPCERYCOXPACZEEGLREBRZWXGUTTVTHB9GBRCIFEOBPIRXXPQKRSODEHDSZXLGIKXUQWNTQKIOPVDVSIK9WJUAEFOJBU9MBPBSVYSCLBMINTT9ZCTREZSMSVOPXSZOMCGFEZKMOCNLJ9QUTAPKBHRIAIYLCHUQHOINKSCMXWZVDGDXHNJQXJHPCCGBEWROVKEPAPBFFRCAVXZWIRKCRAWYHIHMDXFAGDJQNJJPYSQUHKFOOCEVQOGRQEIOQFKZWUQ9XVRNXKGMJOQEZHQZXQABWUQRBKXWHYUXEAEMDGXVY9WS9VJOCMGBQASSRNKAYJPTSPQEMYSJMTCLMDQJKDPBGQZZSFBDOKHBYY9UDRXNKTPWBCQTVKUGMEDUXL9TTKPATNIKVAGHACHPFSCRYNIRJBQC9OADPGWBFYYARSVNQCGMYQGCYLZH9KLMUIJPCLPQVS9BORXCJBXPDECJGKDNOUYWTKKFLXZARWKGUSMVMXKJTMRYZRERFCFGTZFZFCAOQSZGPQJUEZUJLJPU9QPMJUTZNLMSMPRGIFHUUZHMPMRBEBATEIIWPCOIMWOYOG9NYFBYOWFDKRXOTREBU99GNCPXKOWGI99LNVPRFFF9FCLFXI9HMUFU9NRLNJVTFNUSUJTAVOG9GKUYYEXIM9HTPIDTWIGLKRAQPKMQVZAPYMPSQIOJ9JZBWDMQHDSSRSHNCWSAJCSRORSEXLLQNZUKPXPGRLYMXOXWCCWWSBALFLXPHSGFLTOAFWPETBKJUMBLHMSKYLPJT9EJAZCPPNZWKPVCGKDJCRCLBBIAKVDSNWGONPLKFAYXZDI9FKPHDPKCB9UUPXLJVQTXOAZOQDRNSONXDVSLQGZYRIPGREYHRAUOSBFZDZPZHFNMWCZQGPXCZVLNCSASB9RQDFHOYMUVYLFKOEEWNREYCDMCTZIAFBFKLKRQWZCJHQZCZGWXIFTKRVMPHMVHAABHBDEV9WDEZBR9FLXLNBVNYKUOUFJQKNZVZVGZDDTFYNYFUVRLZKOLXXQYNV9MDVBLZSERXPGYKRIEZQZD9IBKFDT9AIYGWJJCXFWDUDURGJQLXVEJAVEOMZUVVTNCVBXEVQRDQIEHDUCSLCIJUTSCLFXEGMFYP9YLXELCZPMTBZWBIODZCFNJLVWTPQGLMQIHIABAYGJFFMOEDTCXGEDTNXMVXZYFGXRKVVRTIZ9ISXTDHAFPEKQZSM9XXQLOYBLTMD9MBERBIBEJDEXGMOLDZPZVVEPIRKJBDPAKFAWJPTCJSHZPDUKZEEHRFLMZCUGCOWFJBSTDGPHUIXSPPPHRQARMCFMTWKYPJNJQV9VSFZ9EWB9GVEAFUXHWRNUXQLCSBWROOITBATWUXUYGSMGAXKGEBP9ZJWXQWHBVPOSLDHTWXUOFQNO9EXSYPQF9LQLQAFNRU9MTIIRQLBBBYKUPANWRQKGESFARQIRUTGFMZVUKHZJYKTYOARTDOBIYBFRHJWEFHCYVHRHTLTWBRMUDVIVQVNELQMQRXYDNGVSICZINWIZCIWVFXLYOLYKWDNWCWFZUXHUWOPRDHMTSXOZX9CVHANU9ZXTJOGKEPYR9CHGOTIUQSWIALAOIKHQFXWY9ZWTSZADVXJNNZOLSCXVVFBRHLRBTGMSZOYNIXTAMABKGJTLGTZKRHOPPJMNYIQNVKRGXUQDWYEIEZYM9CSXO9YLSBJLDJUWOLUXDEKBGGEIDEXFLZMESDOITNYTNRLGOMHJH9HOLXJABUNLXCZYTXFPZMHRJPLXSVPDBJBBZX9TBIMZZFZOXUSFEJYHEXPFXGJCQTBBLPEEWAPHUETGXSXYYAF9PCCCOONRMQGAPJ9JO9BZQ9QSKTPFFYIFVHSLAZY9CWYSIMKDOSLRKWBHPGJGVEJEEMLCCWXKSOCMBMZZZJWYBBXE9FTAYJALGWITJRXAXWZEXMECTZEEIWZPHYX";

#[test]
fn test_long_seed_key_generation() {
    let seed =
        "EV9QRJFJZVFNLYUFXWKXMCRRPNAZYQVEYB9VEPUHQNXJCWKZFVUCTQJFCUAMXAHMMIUQUJDG9UGGQBPIY";

    for i in 1..5 {
        let key1 = key(&seed.trits(), 0, i).unwrap();
        assert_eq!(KEY_LENGTH * i, key1.len());
        let key2 = key(&(seed.to_string() + seed).trits(), 0, i).unwrap();
        assert_eq!(KEY_LENGTH * i, key2.len());
        let key3 = key(&(seed.to_string() + seed + seed).trits(), 0, i).unwrap();
        assert_eq!(KEY_LENGTH * i, key3.len());
    }
}

#[test]
fn test_signing() {
    let hash_to_sign = remove_checksum(
        "LXQHWNY9CQOHPNMKFJFIJHGEPAENAOVFRDIBF99PPHDTWJDCGHLYETXT9NPUVSNKT9XDTDYNJKJCPQMZCCOZVXMTXC",
    );
    let key = key(&TEST_SEED.trits(), 5, 2).unwrap();
    let normalized_hash = normalized_bundle(&hash_to_sign);
    let signature = signature_fragment(&normalized_hash[0..27], &key[0..6561]).unwrap();
    assert_eq!(signature.trytes().unwrap(), SIG1);
    let signature2 =
        signature_fragment(&normalized_hash[27..27 * 2], &key[6561..6561 * 2]).unwrap();
    assert_eq!(signature2.trytes().unwrap(), SIG2);
}

#[test]
fn test_key_length() {
    let mut test_key = key(&TEST_SEED.trits(), 5, 1).unwrap();
    assert_eq!(KEY_LENGTH, test_key.len());
    test_key = key(&TEST_SEED.trits(), 5, 2).unwrap();
    assert_eq!(KEY_LENGTH * 2, test_key.len());
    test_key = key(&TEST_SEED.trits(), 5, 3).unwrap();
    assert_eq!(KEY_LENGTH * 3, test_key.len());
}

#[test]
fn test_verifying() {
    assert!(validate_signatures(
        &remove_checksum(ADDR),
        &vec![SIG1.to_string(), SIG2.to_string()],
        &remove_checksum(FIRST_ADDR),
    )
    .unwrap());
}

fn flip_tryte(s: &str, at: usize) -> String {
    let mut chars: Vec<char> = s.chars().collect();
    chars[at] = if chars[at] == 'A' { 'B' } else { 'A' };
    chars.into_iter().collect()
}

#[test]
fn verifying_fails_on_changed_first_fragment() {
    let changed = flip_tryte(SIG1, 100);
    assert!(!validate_signatures(
        &remove_checksum(ADDR),
        &vec![changed, SIG2.to_string()],
        &remove_checksum(FIRST_ADDR),
    )
    .unwrap());
}

#[test]
fn verifying_fails_on_changed_second_fragment() {
    let changed = flip_tryte(SIG2, 2000);
    assert!(!validate_signatures(
        &remove_checksum(ADDR),
        &vec![SIG1.to_string(), changed],
        &remove_checksum(FIRST_ADDR),
    )
    .unwrap());
}

#[test]
fn verifying_fails_on_other_address() {
    assert!(!validate_signatures(
        &remove_checksum(FIRST_ADDR),
        &vec![SIG1.to_string(), SIG2.to_string()],
        &remove_checksum(FIRST_ADDR),
    )
    .unwrap());
}

#[test]
fn verifying_rejects_short_inputs() {
    assert_eq!(
        validate_signatures(&remove_checksum(ADDR), &vec![SIG1.to_string()], "ABC"),
        Err(Error::InvalidLength)
    );
    assert_eq!(
        validate_signatures(
            &remove_checksum(ADDR),
            &vec!["ABC".to_string()],
            &remove_checksum(FIRST_ADDR),
        ),
        Err(Error::InvalidLength)
    );
}

#[test]
fn derived_key_signs_to_published_address() {
    let key = key(&TEST_SEED.trits(), 5, 2).unwrap();
    let digests = digests(&key).unwrap();
    assert_eq!(digests.len(), 2 * 243);
    let addr = address(&digests).unwrap();
    assert_eq!(addr.trytes().unwrap(), remove_checksum(ADDR));
}

#[test]
fn signature_digest_matches_key_digest() {
    let key = key(&TEST_SEED.trits(), 5, 2).unwrap();
    let normalized_hash = normalized_bundle(&remove_checksum(FIRST_ADDR));
    let public = digests(&key[0..6561]).unwrap();
    let signed = signature_fragment(&normalized_hash[0..27], &key[0..6561]).unwrap();
    let recovered = digest(&normalized_hash[0..27], &signed).unwrap();
    assert_eq!(recovered, public);
}

#[test]
fn normalized_groups_sum_to_zero() {
    let normalized_hash = normalized_bundle(&remove_checksum(FIRST_ADDR));
    assert_eq!(normalized_hash.len(), 81);
    for g in 0..3 {
        let sum: i32 = normalized_hash[g * 27..g * 27 + 27].iter().map(|v| *v as i32).sum();
        assert_eq!(sum, 0);
        assert!(normalized_hash[g * 27..g * 27 + 27].iter().all(|v| -13 <= *v && *v <= 13));
    }
}

#[test]
fn normalize_lowers_first_values() {
    let hash = "M".repeat(81);
    let normalized_hash = normalized_bundle(&hash);
    let mut expected = vec![-13i8; 13];
    expected.push(0);
    expected.extend(vec![13i8; 13]);
    assert_eq!(&normalized_hash[0..27], &expected[..]);
}

#[test]
fn key_rejects_bad_input() {
    assert_eq!(key(&TEST_SEED.trits(), 0, 0), Err(Error::InvalidSecurity));
    assert_eq!(key(&[0i8; 10], 0, 1), Err(Error::HashLength));
    assert_eq!(key(&[], 0, 1), Err(Error::HashLength));
    let mut bad = TEST_SEED.trits();
    bad[3] = 2;
    assert_eq!(key(&bad, 0, 1), Err(Error::InvalidTrit));
}

#[test]
fn key_depends_on_index() {
    let a = key(&TEST_SEED.trits(), 0, 1).unwrap();
    let b = key(&TEST_SEED.trits(), 1, 1).unwrap();
    assert_ne!(a, b);
    assert!(a.iter().all(|t| -1 <= *t && *t <= 1));
}

#[test]
fn signature_fragment_keeps_unsigned_tail() {
    let key = key(&TEST_SEED.trits(), 0, 1).unwrap();
    let norm = vec![13i8; 2];
    let signed = signature_fragment(&norm, &key).unwrap();
    assert_eq!(signed, key);
    let norm = vec![12i8; 1];
    let signed = signature_fragment(&norm, &key).unwrap();
    assert_ne!(&signed[0..243], &key[0..243]);
    assert_eq!(&signed[243..], &key[243..]);
}

#[test]
fn signature_fragment_rejects_bad_input() {
    let norm = vec![0i8; 27];
    assert_eq!(signature_fragment(&norm, &[0i8; 100]), Err(Error::InvalidLength));
    let mut bad = vec![0i8; 6561];
    bad[5] = 3;
    assert_eq!(signature_fragment(&norm, &bad), Err(Error::InvalidTrit));
}

#[test]
fn digest_and_address_reject_bad_input() {
    assert_eq!(digest(&[0i8; 26], &[0i8; 6561]), Err(Error::InvalidLength));
    assert_eq!(digest(&[0i8; 27], &[0i8; 6560]), Err(Error::InvalidLength));
    assert_eq!(address(&[0i8; 242]), Err(Error::HashLength));
    assert_eq!(address(&[5i8; 243]), Err(Error::InvalidTrit));
    assert_eq!(digests(&[0i8; 100]).unwrap().len(), 0);
}

#[test]
fn long_seed_key_is_one_squeezed_stream() {
    let seed = TEST_SEED.to_string() + TEST_SEED;
    let k1 = key(&seed.trits(), 0, 1).unwrap();
    let k2 = key(&seed.trits(), 0, 2).unwrap();
    assert_eq!(k1.len(), KEY_LENGTH);
    assert_eq!(&k2[0..KEY_LENGTH], &k1[..]);
}
