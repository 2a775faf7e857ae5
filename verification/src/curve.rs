//! The sRGB transfer curve in whole numbers.

use vstd::prelude::*;
use crate::image::LINEAR_LEVELS;

verus! {

/// `b` multiplied by itself `n` times.
pub open spec fn power(b: int, n: nat) -> int
    decreases n,
{
    if n == 0 {
        1
    } else {
        b * power(b, (n - 1) as nat)
    }
}

/// 269025 to the power 12: the denominator `255 · 1.055`, in thousandths,
/// raised as the curve raises it.
pub open spec fn unit_to_the_twelfth() -> int {
    143718170736715179673922499054650690394393835706770420074462890625int
}

/// Twice `UNIT`, to the power 5.
pub open spec fn two_units_to_the_fifth() -> int {
    38685626227668133590597632int
}

/// `v` is the whole number nearest to `UNIT` times the linear-light value
/// of the 8-bit sRGB level `c`.
///
/// The curve takes `x = c / 255` to `x / 12.92` up to `x = 0.04045` (the
/// levels up to 10) and to `(x + 0.055) / 1.055` raised to the power 2.4
/// above. With both sides doubled, and raised to the fifth power for the
/// upper part, "within a half of `v`" is a statement about whole numbers.
pub open spec fn nearest_linear(c: int, v: int) -> bool {
    if c <= 10 {
        (2 * v - 1) * 329460 <= 2 * 65536 * 100 * c <= (2 * v + 1) * 329460
    } else {
        &&& power(2 * v - 1, 5) * unit_to_the_twelfth() <= two_units_to_the_fifth() * power(
            1000 * c + 14025,
            12,
        )
        &&& two_units_to_the_fifth() * power(1000 * c + 14025, 12) <= power(2 * v + 1, 5)
            * unit_to_the_twelfth()
    }
}

/// Every entry of the table of linear levels is the whole number nearest to
/// the curve.
pub proof fn lemma_linear_levels()
    ensures
        forall|c: int| 0 <= c < 256 ==> nearest_linear(c, #[trigger] LINEAR_LEVELS@[c] as int),
{
    lemma_levels_from_0();
    lemma_levels_from_32();
    lemma_levels_from_64();
    lemma_levels_from_96();
    lemma_levels_from_128();
    lemma_levels_from_160();
    lemma_levels_from_192();
    lemma_levels_from_224();
}

/// One level above the linear part, with the three powers worked out.
proof fn lemma_on_the_curve(
    c: int,
    v: int,
    base: int,
    low: int,
    high: int,
    twelfth: int,
    below: int,
    above: int,
)
    requires
        c > 10,
        base == 1000 * c + 14025,
        low == 2 * v - 1,
        high == 2 * v + 1,
        twelfth == power(base, 12),
        below == power(low, 5),
        above == power(high, 5),
        below * unit_to_the_twelfth() <= two_units_to_the_fifth() * twelfth,
        two_units_to_the_fifth() * twelfth <= above * unit_to_the_twelfth(),
    ensures
        nearest_linear(c, v),
{
}

proof fn lemma_levels_from_0()
    ensures
        forall|c: int| 0 <= c < 32 ==> nearest_linear(c, #[trigger] LINEAR_LEVELS@[c] as int),
{
    reveal_with_fuel(power, 13);
    assert(nearest_linear(0, 0));
    assert(nearest_linear(1, 20));
    assert(nearest_linear(2, 40));
    assert(nearest_linear(3, 60));
    assert(nearest_linear(4, 80));
    assert(nearest_linear(5, 99));
    assert(nearest_linear(6, 119));
    assert(nearest_linear(7, 139));
    assert(nearest_linear(8, 159));
    assert(nearest_linear(9, 179));
    assert(nearest_linear(10, 199));
    lemma_on_the_curve(11, 219, 25025, 437, 439, 60323847561823900031596137289167165815830230712890625int, 15937022465957int, 16305067506199int);
    lemma_on_the_curve(12, 241, 26025, 481, 483, 96535901854833968505853854049055461943149566650390625int, 25746925826401int, 26286674882643int);
    lemma_on_the_curve(13, 264, 27025, 527, 529, 151770872743847427229889579306270799696445465087890625int, 40649300451407int, 41426511213649int);
    lemma_on_the_curve(14, 288, 28025, 575, 577, 234718572482678530111877094013724556028842926025390625int, 62854912109375int, 63955671886657int);
    lemma_on_the_curve(15, 313, 29025, 625, 627, 357492340273729600092126311796447248518466949462890625int, 95367431640625int, 96903107471907int);
    lemma_on_the_curve(16, 340, 30025, 679, 681, 536779835499844901288425460592213535368442535400390625int, 144327427699399int, 146465574547401int);
    lemma_on_the_curve(17, 367, 31025, 733, 735, 795319227575637816812083186167167215406894683837890625int, 211602051158893int, 214504642209375int);
    lemma_on_the_curve(18, 396, 32025, 791, 793, 1163776708242839354636776827506446228086948394775390625int, 309658080584951int, 313592694387193int);
    lemma_on_the_curve(19, 427, 33025, 853, 855, 1683115484351995006298563114079807653486728668212890625int, 451590872919493int, 456909905784375int);
    lemma_on_the_curve(20, 458, 34025, 915, 917, 2407562701427234949001657534982252712309360504150390625int, 641365316071875int, 648405482564357int);
    lemma_on_the_curve(21, 491, 35025, 981, 983, 3408299316711564398900838629949651765882968902587890625int, 908542059128901int, 917841286185143int);
    lemma_on_the_curve(22, 526, 36025, 1051, 1053, 4778019015668395319927583452249369316160678863525390625int, 1282370681030251int, 1294618640600493int);
    lemma_on_the_curve(23, 562, 37025, 1123, 1125, 6636526093902621836523290453445889005720615386962890625int, 1786071256261843int, 1802032470703125int);
    lemma_on_the_curve(24, 599, 38025, 1197, 1199, 9137569068572710798039196040041438617765903472900390625int, 2457371131685757int, 2477969265605999int);
    lemma_on_the_curve(25, 637, 39025, 1273, 1275, 12477136917063845845358841051991615076124668121337890625int, 3343043427317593int, 3369387216796875int);
    lemma_on_the_curve(26, 677, 40025, 1353, 1355, 16903478559988468124495193413096009445250034332275390625int, 4534077957621993int, 4567688469846875int);
    lemma_on_the_curve(27, 718, 41025, 1435, 1437, 22729143821498471405510783203263831930220127105712890625int, 6084984906896875int, 6127507347270957int);
    lemma_on_the_curve(28, 761, 42025, 1521, 1523, 30345385940952239166105456402654536876738071441650390625int, 8140406085191601int, 8194067112743843int);
    lemma_on_the_curve(29, 805, 43025, 1609, 1611, 40239312122673596595612603557693447771131992340087890625int, 10784008474947049int, 10851198350889051int);
    lemma_on_the_curve(30, 851, 44025, 1701, 1703, 53014219959816068514940969618962382240355014801025390625int, 14240379658908501int, 14324294450988743int);
    lemma_on_the_curve(31, 898, 45025, 1795, 1797, 69413614238084600179195401200965277051985263824462890625int, 18634693955621875int, 18738740005928757int);
}

proof fn lemma_levels_from_32()
    ensures
        forall|c: int| 32 <= c < 64 ==> nearest_linear(c, #[trigger] LINEAR_LEVELS@[c] as int),
{
    reveal_with_fuel(power, 13);
    lemma_on_the_curve(32, 947, 46025, 1893, 1895, 90349461018559666960306137513768813114225864410400390625int, 24308215050492693int, 24436897743434375int);
    lemma_on_the_curve(33, 997, 47025, 1993, 1995, 116935304439297567564992501216518040475904941558837890625int, 31443906303993193int, 31601995006246875int);
    lemma_on_the_curve(34, 1048, 48025, 2095, 2097, 150524946806297303336783095442827003326475620269775390625int, 40357117244059375int, 40550120800150257int);
    lemma_on_the_curve(35, 1101, 49025, 2201, 2203, 192757474730228977567610863248044364996016025543212890625int, 51653554528411001int, 51888663627691243int);
    lemma_on_the_curve(36, 1156, 50025, 2311, 2313, 245609503791738834092697615728394032955229282379150390625int, 65917348148432551int, 66203075280122793int);
    lemma_on_the_curve(37, 1212, 51025, 2423, 2425, 311455611992716172090038885061990783815443515777587890625int, 83515497143728343int, 83860744697265625int);
    lemma_on_the_curve(38, 1270, 52025, 2539, 2541, 393138038603447251720796208721730888328611850738525390625int, 105514830195736699int, 105931061750368701int);
    lemma_on_the_curve(39, 1330, 53025, 2659, 2661, 494046840498675321837300201110057736387312412261962890625int, 132920414421017299int, 133421055716129301int);
    lemma_on_the_curve(40, 1391, 54025, 2781, 2783, 618211823265061987899164018865602462024748325347900390625int, 166343158796417901int, 166942161268674143int);
    lemma_on_the_curve(41, 1453, 55025, 2905, 2907, 770407699857953781163203076091699568414747714996337890625int, 206885800271565625int, 207598952991131307int);
    lemma_on_the_curve(42, 1517, 56025, 3033, 3035, 956274076010451030677453115756777552871763706207275390625int, 256662282157950393int, 257509631311896875int);
    lemma_on_the_curve(43, 1583, 57025, 3165, 3167, 1182452019600986576581574993516624531850874423980712890625int, 317591281557478125int, 318595998506800607int);
    lemma_on_the_curve(44, 1651, 58025, 3301, 3303, 1456739141440541654703330780208528865947782993316650390625int, 391947249978916501int, 393136048771636743int);
    lemma_on_the_curve(45, 1720, 59025, 3439, 3441, 1788265298146486147091612039267294784898817539215087890625int, 481017502535121199int, 482417843661393201int);
    lemma_on_the_curve(46, 1791, 60025, 3581, 3583, 2187691224652178611828697385313133012580931186676025390625int, 588872949576901901int, 590519224617158143int);
    lemma_on_the_curve(47, 1863, 61025, 3725, 3727, 2667432615211842922946012680161426392011702060699462890625int, 717185310048828125int, 719112708318707407int);
    lemma_on_the_curve(48, 1937, 62025, 3873, 3875, 3241912398277873377696663472504370510349333286285400390625int, 871439988574450593int, 873692352294921875int);
    lemma_on_the_curve(49, 2013, 63025, 4025, 4027, 3927844193159183741022405537514489323892652988433837890625int, 1056402507822265625int, 1059029719923168907int);
    lemma_on_the_curve(50, 2090, 64025, 4179, 4181, 4744550195749116441640515622620025783081114292144775390625int, 1274564610519616899int, 1277617458486664901int);
    lemma_on_the_curve(51, 2170, 65025, 4339, 4341, 5714317017702887126855220755702207457494795322418212890625int, 1537971368882305699int, 1541519167532617701int);
    lemma_on_the_curve(52, 2250, 66025, 4499, 4501, 6862793299139669711896940721964387160854399204254150390625int, 1843231848547522499int, 1847332473952522501int);
    lemma_on_the_curve(53, 2333, 67025, 4665, 4667, 8219433230164811185678594565723058576021254062652587890625int, 2209318048374665625int, 2214058055316708107int);
    lemma_on_the_curve(54, 2418, 68025, 4835, 4837, 9817990452204836594739618223370746879997313022613525390625int, 2642301626467521875int, 2647771095980407957int);
    lemma_on_the_curve(55, 2504, 69025, 5007, 5009, 11697067167303824233873136643760774368925154209136962890625int, 3146936335810041807int, 3153226432414084049int);
    lemma_on_the_curve(56, 2592, 70025, 5183, 5185, 13900723663157268116787930002263901083087980747222900390625int, 3740296614814926143int, 3747518656715490625int);
    lemma_on_the_curve(57, 2681, 71025, 5361, 5363, 16479153864802954854272429864746840431909620761871337890625int, 4428218440392282801int, 4436484666278203043int);
    lemma_on_the_curve(58, 2773, 72025, 5545, 5547, 19489432951623786283270977407722649818954527378082275390625int, 5242129584514215625int, 5251590202128072507int);
    lemma_on_the_curve(59, 2866, 73025, 5731, 5733, 22996343531753343303660972050922996266927778720855712890625int, 6182327995674877651int, 6193123048039183893int);
    lemma_on_the_curve(60, 2961, 74025, 5921, 5923, 27073287346252599710581335108542297042675077915191650390625int, 7277384231385373601int, 7289683340004445843int);
    lemma_on_the_curve(61, 3058, 75025, 6115, 6117, 31803289983720149265395909315403735282182753086090087890625int, 8550318782132321875int, 8564310464266110357int);
    lemma_on_the_curve(62, 3157, 76025, 6313, 6315, 37280106623516978322108011334297150615577757358551025390625int, 10027183128819342793int, 10043076584382946875int);
    lemma_on_the_curve(63, 3258, 77025, 6515, 6517, 43609437393772834102042350600738804792127668857574462890625int, 11737405271333571875int, 11755432307208352357int);
}

proof fn lemma_levels_from_64()
    ensures
        forall|c: int| 64 <= c < 96 ==> nearest_linear(c, #[trigger] LINEAR_LEVELS@[c] as int),
{
    reveal_with_fuel(power, 13);
    lemma_on_the_curve(64, 3360, 78025, 6719, 6721, 50910261530071978862685924111403022305240690708160400390625int, 13693775557303329599int, 13714168369112097601int);
    lemma_on_the_curve(65, 3464, 79025, 6927, 6929, 59316300153504175004178293012475706017465651035308837890625int, 15948723843535363407int, 15971761141214605649int);
    lemma_on_the_curve(66, 3570, 80025, 7139, 7141, 68977618153960405460751843094179727785492002964019775390625int, 18543295100735279699int, 18569284297916471701int);
    lemma_on_the_curve(67, 3678, 81025, 7355, 7357, 80062376367536563991972227547722194085149824619293212890625int, 21523524317488596875int, 21552804036075428557int);
    lemma_on_the_curve(68, 3788, 82025, 7575, 7577, 92758745977103273274886186590913586636409819126129150390625int, 24940961149833984375int, 24973903902008321657int);
    lemma_on_the_curve(69, 3900, 83025, 7799, 7801, 107276997843964361657156334818708778028383314609527587890625int, 28853240896911638999int, 28890255954128439001int);
    lemma_on_the_curve(70, 4014, 84025, 8027, 8029, 123851780297556222317598303384919922344322264194488525390625int, 33324705098391988907int, 33366241557271751149int);
    lemma_on_the_curve(71, 4129, 85025, 8257, 8259, 142744599770869254251122820371351220786619246006011962890625int, 38380570239490933057int, 38427075226446325299int);
    lemma_on_the_curve(72, 4247, 86025, 8493, 8495, 164246519573273377410651908950605562301807463169097900390625int, 44188129736034525693int, 44240183128464059375int);
    lemma_on_the_curve(73, 4366, 87025, 8731, 8733, 188681093041313809565292379198813039205560743808746337890625int, 50736434168339692651int, 50794571476511998893int);
    lemma_on_the_curve(74, 4488, 88025, 8975, 8977, 216407548303462004645119185664531337807693541049957275390625int, 58233418611318359375int, 58298331567316408657int);
    lemma_on_the_curve(75, 4611, 89025, 9221, 9223, 247824242938451004820194019050068004037160933017730712890625int, 66663806789540610101int, 66736133794547922343int);
    lemma_on_the_curve(76, 4736, 90025, 9471, 9473, 283372407900426062197008696611474584067058622837066650390625int, 76204248233752836351int, 76284742837571598593int);
    lemma_on_the_curve(77, 4864, 91025, 9727, 9729, 323540201229472818313326512133462639939622938632965087890625int, 87075219795193937407int, 87164775706363739649int);
    lemma_on_the_curve(78, 4993, 92025, 9985, 9987, 368867093264960613689765702585491640191230833530426025390625int, 99252246627530490625int, 99351687804427678707int);
    lemma_on_the_curve(79, 5124, 93025, 10247, 10249, 419948606333413583285835584815278725477399885654449462890625int, 112975346247262276007int, 113085641412386926249int);
    lemma_on_the_curve(80, 5257, 94025, 10513, 10515, 477441433194195428158545711885980349197788298130035400390625int, 128420194122442323793int, 128542394317346071875int);
    lemma_on_the_curve(81, 5392, 95025, 10783, 10785, 542068959897106372900449594913295793121194899082183837890625int, 145780026905665514143int, 145915271378132990625int);
    lemma_on_the_curve(82, 5530, 96025, 11059, 11061, 614627220138027418128185132508742558010559141635894775390625int, 165416676285759779299int, 165566306919375851301int);
    lemma_on_the_curve(83, 5669, 97025, 11337, 11339, 695991309694036013610801886185353629247961103916168212890625int, 187279712153205140457int, 187444963808100740699int);
    lemma_on_the_curve(84, 5810, 98025, 11619, 11621, 787122291080031466401028736332046617459621489048004150390625int, 211759917223591494099int, 211942233112245582101int);
    lemma_on_the_curve(85, 5953, 99025, 11905, 11907, 889074620196965314018382249612914774140901625156402587890625int, 239137122259299690625int, 239338060927275176307int);
    lemma_on_the_curve(86, 6099, 100025, 12197, 12199, 1003004128439434367413134284897689882281303465366363525390625int, 269938679522138140757int, 270160067748991660999int);
    lemma_on_the_curve(87, 6246, 101025, 12491, 12493, 1130176595499870750824974961079627021989469587802886962890625int, 304078729330097503451int, 304322245557962545693int);
    lemma_on_the_curve(88, 6395, 102025, 12789, 12791, 1271976949950108860079492106387061211118183195590972900390625int, 342123524046146462949int, 342391121627146244951int);
    lemma_on_the_curve(89, 6547, 103025, 13093, 13095, 1429919136601025266310148705044885920889368116855621337890625int, 384765247762624948693int, 385059208515778434375int);
    lemma_on_the_curve(90, 6701, 104025, 13401, 13403, 1605656691639582941156723653392203466519088804721832275390625int, 432201267270835667001int, 432523877741846627243int);
    lemma_on_the_curve(91, 6856, 105025, 13711, 13713, 1800994068622362177410876333812397272842550337314605712890625int, 484557872891786969551int, 484911384128576099793int);
    lemma_on_the_curve(92, 7014, 106025, 14027, 14029, 2017898760567971782729130111081876014939098417758941650390625int, 543030202375895218907int, 543417444891970181149int);
    lemma_on_the_curve(93, 7174, 107025, 14347, 14349, 2258514265640098720924111851993739633757219374179840087890625int, 607862695442909236507int, 608286499857475846749int);
    lemma_on_the_curve(94, 7336, 108025, 14671, 14673, 2525173946250914662626341965362617226739540159702301025390625int, 679670758203704542351int, 680134159535221864593int);
    lemma_on_the_curve(95, 7500, 109025, 14999, 15001, 2820415833843705770571890255766926813447828352451324462890625int, 759121908747750074999int, 759628158752250075001int);
}

proof fn lemma_levels_from_96()
    ensures
        forall|c: int| 96 <= c < 128 ==> nearest_linear(c, #[trigger] LINEAR_LEVELS@[c] as int),
{
    reveal_with_fuel(power, 13);
    lemma_on_the_curve(96, 7666, 110025, 15331, 15333, 3146998434136569437848685080634806976187992155551910400390625int, 846939558548899885651int, 847492138655715391893int);
    lemma_on_the_curve(97, 7834, 111025, 15667, 15669, 3507917590228521120202914896529970375635080397129058837890625int, 943907022400214363107int, 944509657266861869349int);
    lemma_on_the_curve(98, 8004, 112025, 16007, 16009, 3906424463688119381688960276743729141458282530307769775390625int, 1050871767918272096807int, 1051528439626764939049int);
    lemma_on_the_curve(99, 8177, 113025, 16353, 16355, 4346044696565542836910848878549442137945928633213043212890625int, 1169464878974523696993int, 1170180191742266721875int);
    lemma_on_the_curve(100, 8352, 114025, 16703, 16705, 4830598820194785836868183634725634104630489408969879150390625int, 1300086969798477063743int, 1300865511586914690625int);
    lemma_on_the_curve(101, 8529, 115025, 17057, 17059, 5364223979686179985652943640204036671913576185703277587890625int, 1443820644475631777057int, 1444667311106000609299int);
    lemma_on_the_curve(102, 8708, 116025, 17415, 17417, 5951397046153748310265425800948801251690940916538238525390625int, 1601833580836555134375int, 1602753593207226546857int);
    lemma_on_the_curve(103, 8889, 117025, 17777, 17779, 6596959191979963974601251308423133802977476179599761962890625int, 1775384247099056612657int, 1776383169173072324899int);
    lemma_on_the_curve(104, 9072, 118025, 18143, 18145, 7306142007795375569835212399249601472532215178012847900390625int, 1965827937805021198943int, 1966911695393653590625int);
    lemma_on_the_curve(105, 9258, 119025, 18515, 18517, 8084595243345390344276829655920361110483331739902496337890625int, 2175798043649371071875int, 2176973451781219612357int);
    lemma_on_the_curve(106, 9446, 120025, 18891, 18893, 8938416258034444231240116300663559660953140318393707275390625int, 2405884311129949055451int, 2407158141943306577693int);
    lemma_on_the_curve(107, 9636, 121025, 19271, 19273, 9874181270682057505159331530822156427683095991611480712890625int, 2657793635106516005351int, 2659173088876093007593int);
    lemma_on_the_curve(108, 9828, 122025, 19655, 19657, 10898978501899157471358017940351417214658794462680816650390625int, 2933359157307464534375int, 2934851884953158590057int);
    lemma_on_the_curve(109, 10022, 123025, 20043, 20045, 12020443306499881195467966468291330341734972059726715087890625int, 3234548238370027108443int, 3236162364910247028125int);
    lemma_on_the_curve(110, 10219, 124025, 20437, 20439, 13246795397507245100090184111320194535260505735874176025390625int, 3565214996664918565957int, 3566959828519451606199int);
    lemma_on_the_curve(111, 10418, 125025, 20835, 20837, 14586878267594034747149942833745628693703413069248199462890625int, 3926155749682517521875int, 3928040515501401287957int);
    lemma_on_the_curve(112, 10619, 126025, 21237, 21239, 16050200918226535464448890704539253528275852262973785400390625int, 4319821834261893609957int, 4321856319147508570199int);
    lemma_on_the_curve(113, 10822, 127025, 21643, 21645, 17646982011351859054754776287271295078559122145175933837890625int, 4748837373900276716443int, 4751031947259852028125int);
    lemma_on_the_curve(114, 11028, 128025, 22055, 22057, 19388196563193248725660382705051360103128662168979644775390625int, 5218375308262072034375int, 5220741811015881802057int);
    lemma_on_the_curve(115, 11236, 129025, 22471, 22473, 21285625304595547847327236598831633345179052412509918212890625int, 5729437663953986101351int, 5731987820883335263593int);
    lemma_on_the_curve(116, 11446, 130025, 22891, 22893, 23351906837398742079720237393678746673149013578891754150390625int, 6285268381784392275451int, 6288014599412658597693int);
    lemma_on_the_curve(117, 11658, 131025, 23315, 23317, 25600592721514932834326071883870570096346406996250152587890625int, 6889331759674186071875int, 6892287159124347316357int);
    lemma_on_the_curve(118, 11873, 132025, 23745, 23747, 28046205632747137576598106143924174655573234617710113525390625int, 7548503653591871090625int, 7551683175746150243507int);
    lemma_on_the_curve(119, 12090, 133025, 24179, 24181, 30704300736920864848129389168911217188750639021396636962890625int, 8264026026771487716899int, 8267444444936398764901int);
    lemma_on_the_curve(120, 12309, 134025, 24617, 24619, 33591530431605466369150108443666996971543903410434722900390625int, 9040149825922825302857int, 9043822742554916359099int);
    lemma_on_the_curve(121, 12531, 135025, 25061, 25063, 36725712612585874492385194836749434232987451612949371337890625int, 9885348451612824721301int, 9889293596013862561543int);
    lemma_on_the_curve(122, 12754, 136025, 25507, 25509, 40125902628310602460284510811254220546109848082065582275390625int, 10796846098041913644307int, 10801079657217409086549int);
    lemma_on_the_curve(123, 12981, 137025, 25961, 25963, 43812469091792992211530339940842391093558797895908355712890625int, 11792532610264217105801int, 11797075713269291586043int);
    lemma_on_the_curve(124, 13209, 138025, 26417, 26419, 47807173725883878211599935115586568808226146757602691650390625int, 12865227813288830991857int, 12870098607089531248099int);
    lemma_on_the_curve(125, 13440, 139025, 26879, 26881, 52133255424469398226768525618492130388872880995273590087890625int, 14030254097262821510399int, 14035474656869105798401int);
    lemma_on_the_curve(126, 13673, 140025, 27345, 27347, 56815518718981989839724517449799544190754127562046051025390625int, 15289371687002182340625int, 15294963790993772501507int);
    lemma_on_the_curve(127, 13909, 141025, 27817, 27819, 61880426846650096453069574872424129991244154036045074462890625int, 16655261374748520038857int, 16661249675615932695099int);
}

proof fn lemma_levels_from_128()
    ensures
        forall|c: int| 128 <= c < 160 ==> nearest_linear(c, #[trigger] LINEAR_LEVELS@[c] as int),
{
    reveal_with_fuel(power, 13);
    lemma_on_the_curve(128, 14147, 142025, 28293, 28295, 67356199624157265575221212148139490630461368620395660400390625int, 18129882851901417024693int, 18136291661923225934375int);
    lemma_on_the_curve(129, 14387, 143025, 28773, 28775, 73272916337838718237148860830360865526893320143222808837890625int, 19720854484748717955093int, 19727709382136240234375int);
    lemma_on_the_curve(130, 14629, 144025, 29257, 29259, 79662623869217730707177157775634656068021698057651519775390625int, 21436257165616493038057int, 21443585048898635230299int);
    lemma_on_the_curve(131, 14874, 145025, 29747, 29749, 86559450282579994346701710232190372875947332441806793212890625int, 23292487295043232673507int, 23300318545113649523749int);
    lemma_on_the_curve(132, 15122, 146025, 30243, 30245, 93999724109406269885701964960161254948015193998813629150390625int, 25300222894027948759443int, 25308589646457828903125int);
    lemma_on_the_curve(133, 15372, 147025, 30743, 30745, 102022099572836959787723606334329810672439394056797027587890625int, 27461940721813027261943int, 27470874630036892965625int);
    lemma_on_the_curve(134, 15624, 148025, 31247, 31249, 110667688003931586183562741776504530718928184568881988525390625int, 29788020019267590781007int, 29797554321279297031249int);
    lemma_on_the_curve(135, 15878, 149025, 31755, 31757, 119980195710316550293944249660884022804308958113193511962890625int, 32289445376877364846875int, 32299614960550535550557int);
    lemma_on_the_curve(136, 16135, 150025, 32269, 32271, 130006068566890999774481553032014818333153247892856597900390625int, 34988678134382966112349int, 34999522293027177270351int);
    lemma_on_the_curve(137, 16394, 151025, 32787, 32789, 140794643607588250148277070071199100913401727735996246337890625int, 37888586495147358832707int, 37900143883492890562949int);
    lemma_on_the_curve(138, 16656, 152025, 33311, 33313, 152398307906774172775523447243458606746989212095737457275390625int, 41014587900962033787551int, 41026902005386099077793int);
    lemma_on_the_curve(139, 16920, 153025, 33839, 33841, 164872665048709522642958211453410946895469656050205230712890625int, 44369813380826165353199int, 44382926965301061865201int);
    lemma_on_the_curve(140, 17187, 154025, 34373, 34375, 178276709493615653780284131334664601420641155302524566650390625int, 47982977107602004703093int, 47996938228607177734375int);
    lemma_on_the_curve(141, 17456, 155025, 34911, 34913, 192673009159267849089684042993588835400170946180820465087890625int, 51857484378854058115551int, 51872340277108973965793int);
    lemma_on_the_curve(142, 17727, 156025, 35453, 35455, 208127896547703037674037700124564786818220405638217926025390625int, 56009920128247806532493int, 56025720269231113909375int);
    lemma_on_the_curve(143, 18001, 157025, 36001, 36003, 224711668757574521815812320410073976331070051252841949462890625int, 60474574546572960180001int, 60491374439389934580243int);
    lemma_on_the_curve(144, 18278, 158025, 36555, 36557, 242498796733921096097989927515230488907744541227817535400390625int, 65273055237170179846875int, 65290913313514564374557int);
    lemma_on_the_curve(145, 18556, 159025, 37111, 37113, 261568144118647294815675978782613077345637674391269683837890625int, 70390376062099543166551int, 70409345630012116136793int);
    lemma_on_the_curve(146, 18838, 160025, 37675, 37677, 282003196076841206864790010929503437661137390196323394775390625int, 75904286968010810546875int, 75924436230451459292157int);
    lemma_on_the_curve(147, 19121, 161025, 38241, 38243, 303892298486192180271778857645886906355250768721103668212890625int, 81779829852282716607201int, 81801217468833404799443int);
    lemma_on_the_curve(148, 19408, 162025, 38815, 38817, 327328907889218706980650561987821829554229030668735504150390625int, 88104471926930422009375int, 88127172829112551693857int);
    lemma_on_the_curve(149, 19696, 163025, 39391, 39393, 352411852620782813430563630857033854025192537367343902587890625int, 94838577402309628057951int, 94862656051842038180193int);
    lemma_on_the_curve(150, 19988, 164025, 39975, 39977, 379245605536457440762211606653841390066755790770053863525390625int, 102080399750078115234375int, 102105938365383961763657int);
    lemma_on_the_curve(151, 20281, 165025, 40561, 40563, 407940568780733713520537150386768496274652433454990386962890625int, 109785066241124229898801int, 109812135567185634539043int);
    lemma_on_the_curve(152, 20578, 166025, 41155, 41157, 438613371047811877702844869118451436182360248625278472900390625int, 118062786762004344221875int, 118091476899839225197557int);
    lemma_on_the_curve(153, 20876, 167025, 41751, 41753, 471387177801819325533843346623695156776726160109043121337890625int, 126862834256476493333751int, 126893222747547518783993int);
    lemma_on_the_curve(154, 21178, 168025, 42355, 42357, 506392014937747880880954657531785938888591232359409332275390625int, 136308654336676347971875int, 136340839799529355603557int);
    lemma_on_the_curve(155, 21481, 169025, 42961, 42963, 543765106379206839531541110021416469458415670454502105712890625int, 146342985010158989590801int, 146377052329658905271043int);
    lemma_on_the_curve(156, 21788, 170025, 43575, 43577, 583651226124254665223409358332829585676903820097446441650390625int, 157103904581220146484375int, 157139961569565435701657int);
    lemma_on_the_curve(157, 22096, 171025, 44191, 44193, 626203065266107337222696481958036941000629167616367340087890625int, 168526866846066694321951int, 168565006313818665404193int);
    lemma_on_the_curve(158, 22408, 172025, 44815, 44817, 671581614531431810016397711366218843042659339964389801025390625int, 180766106454180940759375int, 180806446126523465323857int);
    lemma_on_the_curve(159, 22722, 173025, 45443, 45445, 719956562895225642212480798517661513338181104719638824462890625int, 193791610459604056035443int, 193834259199609076403125int);
}

proof fn lemma_levels_from_160()
    ensures
        forall|c: int| 160 <= c < 192 ==> nearest_linear(c, #[trigger] LINEAR_LEVELS@[c] as int),
{
    reveal_with_fuel(power, 13);
    lemma_on_the_curve(160, 23038, 174025, 46075, 46077, 771506712847965422624611832215838018985125370085239410400390625int, 207647506084154716796875int, 207692577279766186214157int);
    lemma_on_the_curve(161, 23357, 175025, 46713, 46715, 826420412907784090569602071543489126159792184889316558837890625int, 222427662118858792664793int, 222475281991111109196875int);
    lemma_on_the_curve(162, 23679, 176025, 47357, 47359, 884896007987917620114133443224810325507475738584995269775390625int, 238188567862614395628557int, 238238868491299569900799int);
    lemma_on_the_curve(163, 24003, 177025, 48005, 48007, 947142308247551902024239488752101279408089361250400543212890625int, 254936706050880150003125int, 254989816757983296256807int);
    lemma_on_the_curve(164, 24329, 178025, 48657, 48659, 1013379077072508182787267562511483941116790523588657379150390625int, 272726062653273732735057int, 272782117996568422047299int);
    lemma_on_the_curve(165, 24659, 179025, 49317, 49319, 1083837538850937360701238420938545595779605836927890777587890625int, 291731450204692793046357int, 291790609341075705702599int);
    lemma_on_the_curve(166, 24991, 180025, 49981, 49983, 1158760907228357131668016692931013073324056053221225738525390625int, 311906701078557577773901int, 311969111127195878830143int);
    lemma_on_the_curve(167, 25325, 181025, 50649, 50651, 1238404934545968843068631611341814383224781065046787261962890625int, 333314629703934873528249int, 333380443630021244478251int);
    lemma_on_the_curve(168, 25662, 182025, 51323, 51325, 1323038483186240458581320782372134021144164905607700347900390625int, 356090323347788137952843int, 356159710966850517578125int);
    lemma_on_the_curve(169, 26002, 183025, 52003, 52005, 1412944119570245850700048682080318197447960748732089996337890625int, 380313718895450101060243int, 380386857555380162503125int);
    lemma_on_the_curve(170, 26344, 184025, 52687, 52689, 1508418731572216397211774645018736237595915908873081207275390625int, 405991884723473234152207int, 406068947890634057842449int);
    lemma_on_the_curve(171, 26689, 185025, 53377, 53379, 1609774170138196325175773237206954404407396841108798980712890625int, 433282157573279565910657int, 433363337599951590742899int);
    lemma_on_the_curve(172, 27036, 186025, 54071, 54073, 1717337915917606269670767812245828392202014141142368316650390625int, 462191557083787718099351int, 462277042047965318141593int);
    lemma_on_the_curve(173, 27387, 187025, 54773, 54775, 1831453771738918030339215903373370742815247545301914215087890625int, 492983793891576917285093int, 493073805356562021484375int);
    lemma_on_the_curve(174, 27739, 188025, 55477, 55479, 1952482581783535539596240113659499433489070930540561676025390625int, 525490464332864881941157int, 525585193383568261893399int);
    lemma_on_the_curve(175, 28095, 189025, 56189, 56191, 2080802978335370713225656179333023886637577314436435699462890625int, 560088318588674157559949int, 560188005038290495981951int);
    lemma_on_the_curve(176, 28453, 190025, 56905, 56907, 2216812157007506336287306985430474651487603855192661285400390625int, 596694642360341940315625int, 596799507765323595401307int);
    lemma_on_the_curve(177, 28813, 191025, 57625, 57627, 2360926681371759733005235436552633007594356851637363433837890625int, 635410945993072509765625int, 635521220189018810156907int);
    lemma_on_the_curve(178, 29177, 192025, 58353, 58355, 2513583317941909056137661596510866740232036743223667144775390625int, 676574994782414288706993int, 676690947925260397971875int);
    lemma_on_the_curve(179, 29543, 193025, 59085, 59087, 2675239902486827076614586817041628337659463110029697418212890625int, 720089037450844871428125int, 720210919110904893704207int);
    lemma_on_the_curve(180, 29911, 194025, 59821, 59823, 2846376238675793915638222725563721860260699672758579254150390625int, 766069802395599938303101int, 766197871305890145695343int);
    lemma_on_the_curve(181, 30283, 195025, 60565, 60567, 3027495030084838887429207223149194731560679292738437652587890625int, 814908049665456286853125int, 815042609538623521727607int);
    lemma_on_the_curve(182, 30657, 196025, 61313, 61315, 3219122846620101251083374184474960701115828971922397613525390625int, 866488557129752633617793int, 866629888509368304821875int);
    lemma_on_the_curve(183, 31033, 197025, 62065, 62067, 3421811126441909036036120919518510229279694852888584136962890625int, 920945221120119854040625int, 921093614671497917635107int);
    lemma_on_the_curve(184, 31413, 198025, 62825, 62827, 3636137214501563131090383260157314543843567218840122222900390625int, 978729066600427666015625int, 978884863080046994022907int);
    lemma_on_the_curve(185, 31795, 199025, 63589, 63591, 3862705438831689528224882621627779618552105493605136871337890625int, 1039704626794779998076949int, 1039868140929361687938951int);
    lemma_on_the_curve(186, 32180, 200025, 64359, 64361, 4102148225760495099014439046995856323493963241636753082275390625int, 1104196680998610833585799int, 1104368260002396999377801int);
    lemma_on_the_curve(187, 32567, 201025, 65133, 65135, 4355127255250340756673323400387662997367413168013095855712890625int, 1172209968541897600120893int, 1172389951340087543459375int);
    lemma_on_the_curve(188, 32957, 202025, 65913, 65915, 4622334657591739617821214299724726691620972118437290191650390625int, 1244100297746749956920793int, 1244289058051936769196875int);
    lemma_on_the_curve(189, 33350, 203025, 66699, 66701, 4904494252715206217029485880104699336469026079237461090087890625int, 1320068942737274641433499int, 1320266868959684619233501int);
    lemma_on_the_curve(190, 33746, 204025, 67491, 67493, 5202362833415335431087228502764655078782455177366733551025390625int, 1400326524665693401778451int, 1400534020408904122820693int);
    lemma_on_the_curve(191, 34144, 205025, 68287, 68289, 5516731493814086121358337759760325041854258680403232574462890625int, 1484875932471923649910207int, 1485093391565684083840449int);
}

proof fn lemma_levels_from_192()
    ensures
        forall|c: int| 192 <= c < 224 ==> nearest_linear(c, #[trigger] LINEAR_LEVELS@[c] as int),
{
    reveal_with_fuel(power, 13);
    lemma_on_the_curve(192, 34545, 206025, 69089, 69091, 5848427004423494280261735099090875757040179996550083160400390625int, 1574144272628115747204449int, 1574372128786469911866451int);
    lemma_on_the_curve(193, 34949, 207025, 69897, 69899, 6198313235201953447005641076995087517274331674635410308837890625int, 1668371185365758215609257int, 1668609888981661630249499int);
    lemma_on_the_curve(194, 35355, 208025, 70709, 70711, 6567292628032786210462943641541038902459820404112339019775390625int, 1767557198090642641472549int, 1767807188500834607654551int);
    lemma_on_the_curve(195, 35765, 209025, 71529, 71531, 6956307720089099713196023612427653726734372015058994293212890625int, 1872452319297500775968649int, 1872714109205416834886651int);
    lemma_on_the_curve(196, 36177, 210025, 72353, 72355, 7366342719584880277801654534112716657610956478178501129150390625int, 1982817374320553890376993int, 1983091437178546441721875int);
    lemma_on_the_curve(197, 36591, 211025, 73181, 73183, 7798425135448947761072325070978213756993412904798984527587890625int, 2098899763352210493409901int, 2099186588414759756066143int);
    lemma_on_the_curve(198, 37009, 212025, 74017, 74019, 8253627462495769268007885252240104194067074546873569488525390625int, 2221556654326426784189857int, 2221856811954287061246099int);
    lemma_on_the_curve(199, 37429, 213025, 74857, 74859, 8733068923705234790913946368705879380064393796980381011962890625int, 2350509933013857053266057int, 2350823949810733329538299int);
    lemma_on_the_curve(200, 37852, 214025, 75703, 75705, 9237917271262334643027930021279515774905567188322544097900390625int, 2486368250733547132958743int, 2486696705303259099065625int);
    lemma_on_the_curve(201, 38278, 215025, 76555, 76557, 9769390648047260796019836810309677615714160394728183746337890625int, 2629467480626650304846875int, 2629810972870649364574557int);
    lemma_on_the_curve(202, 38707, 216025, 77413, 77415, 10328759511306792071864273363473275817207733230650424957275390625int, 2780158078334764610678293int, 2780517230122621742634375int);
    lemma_on_the_curve(203, 39138, 217025, 78275, 78277, 10917348620278927348835435195882739293963464651167392730712890625int, 2938430217463912607421875int, 2938805634951056895015157int);
    lemma_on_the_curve(204, 39572, 218025, 79143, 79145, 11536539089584612387399804687501604954558777751982212066650390625int, 3105006711125102499503943int, 3105399059614110344215625int);
    lemma_on_the_curve(205, 40009, 219025, 80017, 80019, 12187770510243075535513317297749282617586964769423007965087890625int, 3280283079994465409819857int, 3280693048759028130876099int);
    lemma_on_the_curve(206, 40449, 220025, 80897, 80899, 12872543140210756507969522303372101099547812080442905426025390625int, 3464671648612443044064257int, 3465099951635495342304499int);
    lemma_on_the_curve(207, 40892, 221025, 81783, 81785, 13592420166388091827928483971253991724613225202620029449462890625int, 3658602168546796017469143int, 3659049545277273354865625int);
    lemma_on_the_curve(208, 41337, 222025, 82673, 82675, 14349030040083521651234323730836415506267853794157505035400390625int, 3862055290234731855804593int, 3862522461155598701171875int);
    lemma_on_the_curve(209, 41786, 223025, 83571, 83573, 15144068887970016950448705199213390250824716653883457183837890625int, 4076411278894727128546851int, 4076899080452067371189093int);
    lemma_on_the_curve(210, 42237, 224025, 84473, 84475, 15979303000616204905208348083763723832815826721251010894775390625int, 4301199539347322861973593int, 4301708743852469716796875int);
    lemma_on_the_curve(211, 42691, 225025, 85381, 85383, 16856571400721805423229786530378809892257816076338291168212890625int, 4537390790462894840190901int, 4537922243990833671247143int);
    lemma_on_the_curve(212, 43147, 226025, 86293, 86295, 17777788493235594702338852727940592203792560939848423004150390625int, 4784954782698588989314693int, 4785509309321629907184375int);
    lemma_on_the_curve(213, 43607, 227025, 87213, 87215, 18744946799583494444711387289700553967702806673109531402587890625int, 5045522291024545937767293int, 5046100846252299673259375int);
    lemma_on_the_curve(214, 44069, 228025, 88137, 88139, 19760119778284659663080904917606838272802792778074741363525390625int, 5318526404920305740564457int, 5319129870863759706884699int);
    lemma_on_the_curve(215, 44534, 229025, 89067, 89069, 20825464734284615995072660564422855981203877897322177886962890625int, 5605109769625815828970107int, 5605739111750376322876349int);
    lemma_on_the_curve(216, 45003, 230025, 90005, 90007, 21943225819386591193683885428676987284955164814054965972900390625int, 5906540432260125281253125int, 5907196707237784080466807int);
    lemma_on_the_curve(217, 45474, 231025, 90947, 90949, 23115737126215207224895847177079233184559125452101230621337890625int, 6222170241819475380659507int, 6222854425344958511429749int);
    lemma_on_the_curve(218, 45947, 232025, 91893, 91895, 24345425878200661521629625756036923139362225875914096832275390625int, 6552577257001763070942693int, 6553290354026520524684375int);
    lemma_on_the_curve(219, 46424, 233025, 92847, 92849, 25634815718126440869883715036297835139820551290571689605712890625int, 6899845696649262724529007int, 6900588870145406311739249int);
    lemma_on_the_curve(220, 46904, 234025, 93807, 93809, 26986530097839491700521231980545334451640431041777133941650390625int, 7264006699020935055285807int, 7264781088613210024768049int);
    lemma_on_the_curve(221, 47386, 235025, 94771, 94773, 28403295771778628901353951920966387281794063615858554840087890625int, 7644996942893140765082851int, 7645803657987644485485093int);
    lemma_on_the_curve(222, 47871, 236025, 95741, 95743, 29887946397034814431867747610409555616410141639769077301025390625int, 8044328487209022965394701int, 8045168740035013757586943int);
    lemma_on_the_curve(223, 48360, 237025, 96719, 96721, 31443426242715789911018293134746329480539476881086826324462890625int, 8463675188271897487779599int, 8464550303319308288547601int);
}

proof fn lemma_levels_from_224()
    ensures
        forall|c: int| 224 <= c < 256 ==> nearest_linear(c, #[trigger] LINEAR_LEVELS@[c] as int),
{
    reveal_with_fuel(power, 13);
    lemma_on_the_curve(224, 48851, 238025, 97701, 97703, 33072794011447416962245950753445402869795625248014926910400390625int, 8902152799818334283388501int, 8903064000038643737868743int);
    lemma_on_the_curve(225, 49345, 239025, 98689, 98691, 34779226775904978556322287118165749603870511789381504058837890625int, 9361463358805141461272449int, 9362411979502422247694451int);
    lemma_on_the_curve(226, 49842, 240025, 99683, 99685, 36566024033329637121293213193370605351925055694639682769775390625int, 9842501709544518482098643int, 9843489129332198948303125int);
    lemma_on_the_curve(227, 50342, 241025, 100683, 100685, 38436611881048244131887709496560712079854795293867588043212890625int, 10346196860153322547703643int, 10347224502149368201428125int);
    lemma_on_the_curve(228, 50844, 242025, 101687, 101689, 40394547316078764703874738356721431169430513057768344879150390625int, 10872443868403997699597207int, 10873513117330562808887449int);
    lemma_on_the_curve(229, 51350, 243025, 102699, 102701, 42443522661968732971307366165974581459313860597670078277587890625int, 11424338799739310857613499int, 11425451253002962803413501int);
    lemma_on_the_curve(230, 51859, 244025, 103717, 103719, 44587370126080403399979286119222108457947983665525913238525390625int, 12001892481955927766758357int, 12003049703564890001014599int);
    lemma_on_the_curve(231, 52370, 245025, 104739, 104741, 46830066490603623487054668987764940978323147153913974761962890625int, 12604978687337480673687699int, 12606182198931326580639701int);
    lemma_on_the_curve(232, 52884, 246025, 105767, 105769, 49175737940645938428249259183476641444617360096037387847900390625int, 13235822381118114586273607int, 13237073841682929541579849int);
    lemma_on_the_curve(233, 53402, 247025, 106803, 106805, 51628665032819062329361420308107706120712000665724277496337890625int, 13896878452439602608054243int, 13898179670469986133753125int);
    lemma_on_the_curve(234, 53922, 248025, 107843, 107845, 54193287807811627543768826155692621510582441177427768707275390625int, 14586792439994554619547443int, 14588145085366818871403125int);
    lemma_on_the_curve(235, 54445, 249025, 108889, 108891, 56874211050510067993760961992828033180563673086225986480712890625int, 15308056167762568876763449int, 15309462059865010321505451int);
    lemma_on_the_curve(236, 54972, 250025, 109943, 109945, 59676209701302618260438685369786633253490931987822055816650390625int, 16063416371787452198857943int, 16064877492623657340465625int);
    lemma_on_the_curve(237, 55501, 251025, 111001, 111003, 62604234422275732301155802043027622824715322618544101715087890625int, 16851340599881433210555001int, 16852858779705116714955243int);
    lemma_on_the_curve(238, 56033, 252025, 112065, 112067, 65663417322087758489965816584660855549994443855345249176025390625int, 17674615603866957510290625int, 17676192835516916697885107int);
    lemma_on_the_curve(239, 56568, 253025, 113135, 113137, 68859077843381466008696465724818018655258013715803623199462890625int, 18534672044006243693459375int, 18536310381158078410689457int);
    lemma_on_the_curve(240, 57106, 254025, 114211, 114213, 72196728816675016296575954866680457618248494358122348785400390625int, 19432991941049739068572051int, 19434693499792121859502293int);
    lemma_on_the_curve(241, 57647, 255025, 115293, 115295, 75682082684750227266771488219109500772036717081129550933837890625int, 20371110277428051885459693int, 20372877237872254497809375int);
    lemma_on_the_curve(242, 58191, 256025, 116381, 116383, 79321057901637502410768080136421390080412507324278354644775390625int, 21350616640573428517945901int, 21352451248496640363002143int);
    lemma_on_the_curve(243, 58738, 257025, 117475, 117477, 83119785510378606948690006506845174335150309667646884918212890625int, 22373156909268784169921875int, 22375061477791764212651157int);
    lemma_on_the_curve(244, 59288, 258025, 118575, 118577, 87084615903831584178884726398598171025149812831938266754150390625int, 23440434983936835380859375int, 23442411895236444826076657int);
    lemma_on_the_curve(245, 59841, 259025, 119681, 119683, 91222125772866532588224682303309853127451574678480625152587890625int, 24554214561796581331542401int, 24556266268853750394198643int);
    lemma_on_the_curve(246, 60397, 260025, 120793, 120795, 95539125246386723682428961098721267070127647209227085113525390625int, 25716320957829239574987193int, 25718449986212927577496875int);
    lemma_on_the_curve(247, 60956, 261025, 121911, 121913, 100042665227696647582454140014183338117047201566755771636962890625int, 26928642972510761222950551int, 26930851922198475250000793int);
    lemma_on_the_curve(248, 61518, 262025, 123035, 123037, 104740044931827044030717410591473669424517153034269809722900390625int, 28193134807283231686896875int, 28195426354518675048358957int);
    lemma_on_the_curve(249, 62083, 263025, 124165, 124167, 109638819628516826505015814097847691019797786035597324371337890625int, 29511818028752806685603125int, 29514194927941234491005607int);
    lemma_on_the_curve(250, 62651, 264025, 125301, 125303, 114746808595643052717747567916036264951493379135191440582275390625int, 30886783582617340271526501int, 30889248668259205505046743int);
    lemma_on_the_curve(251, 63222, 265025, 126443, 126445, 120072103287982752076992338195098102861817830038130283355712890625int, 32320193858342532976440443int, 32322750047006012579528125int);
    lemma_on_the_curve(252, 63796, 266025, 127591, 127593, 125623075726284506022526135424631602230735280590116977691650390625int, 33814284805621264715458951int, 33816935097954261335021193int);
    lemma_on_the_curve(253, 64373, 267025, 128745, 128747, 131408387111723206967563385960846957541975741777479648590087890625int, 35371368103666779699215625int, 35374115586449000942768507int);
    lemma_on_the_curve(254, 64953, 268025, 129905, 129907, 137436996670908412445313668294395652620925718727171421051025390625int, 36993833384406560168440625int, 36996681232642283423766307int);
    lemma_on_the_curve(255, 65536, 269025, 131071, 131073, 143718170736715179673922499054650690394393835706770420074462890625int, 38684150510660063165284351int, 38687101989712200290926593int);
}

} // verus!
